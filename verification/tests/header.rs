//! The generated header: its exact shape over a given timestamp, and the
//! clock-stamped variant.

use flattener::emitter::generate_header;
use flattener::emitter::make_header;

#[test]
fn make_header_exact_value() {
    assert_eq!(
        make_header("src/models", "2024-01-02 03:04:05"),
        "// Concatenated Rust files from directory: src/models\n\
         // Generated automatically on 2024-01-02 03:04:05\n\
         // This file contains all Rust code from the specified directory\n\n"
    );
}

#[test]
fn make_header_is_deterministic() {
    assert_eq!(
        make_header("src", "2024-01-02 03:04:05"),
        make_header("src", "2024-01-02 03:04:05")
    );
}

#[test]
fn generate_header_stamps_the_local_time() {
    let h = generate_header("src");
    let prefix = "// Concatenated Rust files from directory: src\n// Generated automatically on ";
    let suffix = "\n// This file contains all Rust code from the specified directory\n\n";
    assert!(h.starts_with(prefix));
    assert!(h.ends_with(suffix));
    let stamp = &h[prefix.len()..h.len() - suffix.len()];
    assert_eq!(stamp.len(), 19);
    assert_eq!(&stamp[4..5], "-");
    assert_eq!(&stamp[7..8], "-");
    assert_eq!(&stamp[10..11], " ");
    assert_eq!(&stamp[13..14], ":");
    assert_eq!(&stamp[16..17], ":");
    assert!(stamp
        .chars()
        .all(|c| c.is_ascii_digit() || c == '-' || c == ' ' || c == ':'));
}
