//! Behavior of one flatten run: trimming, path selection, deduplication, and
//! the concatenated result.

use flattener::paths::has_rs_extension;
use flattener::processor::format_block;
use flattener::processor::ModuleProcessor;
use flattener::text::trimmed;

#[test]
fn trimmed_strips_ascii_whitespace() {
    assert_eq!(trimmed("  a b \n"), "a b");
    assert_eq!(trimmed("\t\r\nfn x() {}\n"), "fn x() {}");
}

#[test]
fn trimmed_strips_unicode_whitespace() {
    assert_eq!(trimmed("\u{00A0}x\u{3000}"), "x");
    assert_eq!(trimmed("\u{2028}\u{2009}y\u{202F}"), "y");
}

#[test]
fn trimmed_of_whitespace_only_is_empty() {
    assert_eq!(trimmed("   \n  "), "");
    assert_eq!(trimmed(""), "");
}

#[test]
fn trimmed_keeps_inner_whitespace() {
    assert_eq!(trimmed("a  \n  b"), "a  \n  b");
    assert_eq!(trimmed("already trimmed"), "already trimmed");
}

#[test]
fn extension_match_is_exact_and_case_sensitive() {
    assert!(has_rs_extension("a.rs"));
    assert!(has_rs_extension("dir/sub/b.rs"));
    assert!(has_rs_extension("x..rs"));
    assert!(!has_rs_extension(".rs"));
    assert!(!has_rs_extension("dir/.rs"));
    assert!(!has_rs_extension("rs"));
    assert!(!has_rs_extension("notes.txt"));
    assert!(!has_rs_extension("a.RS"));
    assert!(!has_rs_extension(""));
    assert!(has_rs_extension("dossier/éclair.rs"));
    assert!(!has_rs_extension("dossier/éclair.txt"));
}

#[test]
fn format_block_keeps_unicode_content() {
    assert_eq!(
        format_block("dossier/éclair.rs", "\u{00A0}la tête\u{3000}"),
        "// File: dossier/éclair.rs\nla tête\n\n"
    );
}

#[test]
fn format_block_exact_value() {
    assert_eq!(
        format_block("src/a.rs", " fn a() {}\n"),
        "// File: src/a.rs\nfn a() {}\n\n"
    );
}

#[test]
fn scenario_single_included_file() {
    let mut p = ModuleProcessor::new();
    assert!(p.add_file("src/a.rs".to_string(), "fn a() {}"));
    assert!(!p.add_file("src/b.rs".to_string(), "   \n  "));
    assert!(!p.add_file("src/notes.txt".to_string(), "hello"));
    assert_eq!(p.block_count(), 1);
    assert_eq!(p.concatenated(), "// File: src/a.rs\nfn a() {}\n\n");
}

#[test]
fn block_count_is_nonempty_matching_files() {
    let mut p = ModuleProcessor::new();
    p.add_file("d/a.rs".to_string(), "fn a() {}");
    p.add_file("d/empty.rs".to_string(), "\n\n  ");
    p.add_file("d/b.rs".to_string(), "fn b() {}");
    p.add_file("d/also_empty.rs".to_string(), "");
    p.add_file("d/readme.md".to_string(), "words");
    assert_eq!(p.block_count(), 2);
    assert_eq!(
        p.concatenated(),
        "// File: d/a.rs\nfn a() {}\n\n// File: d/b.rs\nfn b() {}\n\n"
    );
}

#[test]
fn duplicate_path_is_included_once() {
    let mut p = ModuleProcessor::new();
    assert!(p.should_include(&"d/a.rs".to_string()));
    assert!(p.add_file("d/a.rs".to_string(), "fn a() {}"));
    assert!(!p.should_include(&"d/a.rs".to_string()));
    assert!(!p.add_file("d/a.rs".to_string(), "fn other() {}"));
    assert_eq!(p.block_count(), 1);
    assert_eq!(p.concatenated(), "// File: d/a.rs\nfn a() {}\n\n");
}

#[test]
fn wrong_extension_never_included() {
    let mut p = ModuleProcessor::new();
    assert!(!p.should_include(&"d/notes.txt".to_string()));
    assert!(!p.add_file("d/notes.txt".to_string(), "fn looks_like_code() {}"));
    assert_eq!(p.block_count(), 0);
    assert_eq!(p.concatenated(), "");
}

#[test]
fn whitespace_only_file_contributes_zero_bytes() {
    let mut with_it = ModuleProcessor::new();
    with_it.add_file("d/a.rs".to_string(), "fn a() {}");
    with_it.add_file("d/blank.rs".to_string(), " \t\n ");
    with_it.add_file("d/b.rs".to_string(), "fn b() {}");

    let mut without_it = ModuleProcessor::new();
    without_it.add_file("d/a.rs".to_string(), "fn a() {}");
    without_it.add_file("d/b.rs".to_string(), "fn b() {}");

    assert_eq!(with_it.concatenated(), without_it.concatenated());
}

#[test]
fn whitespace_only_file_still_marks_its_path_processed() {
    let mut p = ModuleProcessor::new();
    assert!(!p.add_file("d/a.rs".to_string(), "  "));
    assert!(!p.should_include(&"d/a.rs".to_string()));
    assert!(!p.add_file("d/a.rs".to_string(), "fn late() {}"));
    assert_eq!(p.block_count(), 0);
}

#[test]
fn repeated_runs_give_identical_content() {
    let entries = [
        ("d/a.rs", "fn a() {}"),
        ("d/b.rs", " fn b() {} "),
        ("d/a.rs", "fn a() {}"),
        ("d/blank.rs", "\n"),
    ];
    let mut first = ModuleProcessor::new();
    let mut second = ModuleProcessor::new();
    for (path, content) in entries.iter() {
        first.add_file(path.to_string(), content);
    }
    for (path, content) in entries.iter() {
        second.add_file(path.to_string(), content);
    }
    assert_eq!(first.concatenated(), second.concatenated());
    assert_eq!(first.block_count(), second.block_count());
}
