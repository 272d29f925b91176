//! The header of the output file: three comment lines naming the source
//! directory and the moment the file was generated.

use vstd::prelude::*;

use crate::model::header_of;

verus! {

/// Relies on `chrono::Local::now` and `chrono::DateTime::format`: the current
/// local time, rendered as `YYYY-MM-DD HH:MM:SS`. The result depends on the
/// clock and the machine's time zone, so nothing is claimed of it.
#[verifier::external_body]
fn local_timestamp() -> String {
    chrono::Local::now().format("%Y-%m-%d %H:%M:%S").to_string()
}

/// The header over the given directory path and timestamp, exactly as the
/// output file carries it.
pub fn make_header(dir: &str, timestamp: &str) -> (r: String)
    ensures
        r@ == header_of(dir@, timestamp@),
{
    let mut r = String::new();
    r.append("// Concatenated Rust files from directory: ");
    r.append(dir);
    r.append("\n// Generated automatically on ");
    r.append(timestamp);
    r.append("\n// This file contains all Rust code from the specified directory\n\n");
    proof {
        assert(r@ =~= header_of(dir@, timestamp@));
    }
    r
}

/// The header over the given directory path, timestamped with the local time
/// of the call.
pub fn generate_header(dir: &str) -> (r: String)
    ensures
        exists|timestamp: Seq<char>| r@ == header_of(dir@, timestamp),
{
    let timestamp = local_timestamp();
    let r = make_header(dir, timestamp.as_str());
    proof {
        assert(r@ == header_of(dir@, timestamp@));
    }
    r
}

} // verus!
