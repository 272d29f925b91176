//! The mathematical model of one flatten run. A run is fed a sequence of walk
//! entries, each a `(path, content)` pair, in visitation order. A path is
//! recorded the first time it arrives with the target extension; an entry
//! contributes a block exactly when its path qualifies, was not recorded
//! before, and its content is non-empty after trimming. The output is the
//! header followed by the blocks in arrival order.

use vstd::prelude::*;

use crate::paths::is_rs_path;
use crate::text::trim_spec;

verus! {

/// The block one file contributes: a `// File:` marker line, the trimmed
/// content, and a trailing blank line.
pub open spec fn block_of(path: Seq<char>, content: Seq<char>) -> Seq<char> {
    "// File: "@ + path + "\n"@ + trim_spec(content) + "\n\n"@
}

/// Whether an entry can contribute a block at all: the path qualifies and the
/// content is non-empty once trimmed.
pub open spec fn contributes(e: (Seq<char>, Seq<char>)) -> bool {
    is_rs_path(e.0) && trim_spec(e.1).len() > 0
}

/// The paths recorded as processed after the given entries, in first-arrival
/// order: every qualifying path, kept once.
pub open spec fn processed_after(entries: Seq<(Seq<char>, Seq<char>)>) -> Seq<Seq<char>>
    decreases entries.len(),
{
    if entries.len() == 0 {
        Seq::empty()
    } else {
        let prev = processed_after(entries.drop_last());
        let e = entries.last();
        if is_rs_path(e.0) && !prev.contains(e.0) {
            prev.push(e.0)
        } else {
            prev
        }
    }
}

/// The entries that contribute a block, in arrival order: the first arrival of
/// each qualifying path whose trimmed content is non-empty.
pub open spec fn included_entries(entries: Seq<(Seq<char>, Seq<char>)>) -> Seq<
    (Seq<char>, Seq<char>),
>
    decreases entries.len(),
{
    if entries.len() == 0 {
        Seq::empty()
    } else {
        let prev = included_entries(entries.drop_last());
        let e = entries.last();
        if contributes(e) && !processed_after(entries.drop_last()).contains(e.0) {
            prev.push(e)
        } else {
            prev
        }
    }
}

/// The blocks a run holds after the given entries.
pub open spec fn blocks_after(entries: Seq<(Seq<char>, Seq<char>)>) -> Seq<Seq<char>> {
    included_entries(entries).map_values(|e: (Seq<char>, Seq<char>)| block_of(e.0, e.1))
}

/// How many of the entries contribute a block, duplicates counted each time
/// they arrive.
pub open spec fn contributing_count(entries: Seq<(Seq<char>, Seq<char>)>) -> nat
    decreases entries.len(),
{
    if entries.len() == 0 {
        0
    } else {
        contributing_count(entries.drop_last()) + if contributes(entries.last()) {
            1nat
        } else {
            0nat
        }
    }
}

/// The concatenation of a sequence of blocks, with nothing between them.
pub open spec fn concat_blocks(blocks: Seq<Seq<char>>) -> Seq<char>
    decreases blocks.len(),
{
    if blocks.len() == 0 {
        Seq::empty()
    } else {
        concat_blocks(blocks.drop_last()) + blocks.last()
    }
}

/// The three-line header: the source directory as given, and the timestamp the
/// run was made at.
pub open spec fn header_of(dir: Seq<char>, timestamp: Seq<char>) -> Seq<char> {
    "// Concatenated Rust files from directory: "@ + dir + "\n// Generated automatically on "@
        + timestamp + "\n// This file contains all Rust code from the specified directory\n\n"@
}

/// The whole output of one run: the header, then the blocks.
pub open spec fn output_of(dir: Seq<char>, timestamp: Seq<char>, blocks: Seq<Seq<char>>) -> Seq<
    char,
> {
    header_of(dir, timestamp) + concat_blocks(blocks)
}

/// A path is recorded after the entries exactly when it qualifies and some
/// entry carries it.
pub proof fn lemma_processed_after_contains(entries: Seq<(Seq<char>, Seq<char>)>, p: Seq<char>)
    ensures
        processed_after(entries).contains(p) <==> (is_rs_path(p) && exists|j: int|
            0 <= j < entries.len() && entries[j].0 == p),
    decreases entries.len(),
{
    if entries.len() > 0 {
        lemma_processed_after_contains(entries.drop_last(), p);
        let prev = processed_after(entries.drop_last());
        let e = entries.last();
        if processed_after(entries).contains(p) {
            if prev.contains(p) {
                let j = choose|j: int| 0 <= j < entries.len() - 1 && entries.drop_last()[j].0 == p;
                assert(entries[j].0 == p);
            } else {
                assert(entries[entries.len() - 1].0 == p);
            }
        }
        if is_rs_path(p) && exists|j: int| 0 <= j < entries.len() && entries[j].0 == p {
            if prev.contains(p) {
                let k = choose|k: int| 0 <= k < prev.len() && prev[k] == p;
                assert(processed_after(entries)[k] == p);
            } else {
                let j = choose|j: int| 0 <= j < entries.len() && entries[j].0 == p;
                if j < entries.len() - 1 {
                    assert(entries.drop_last()[j].0 == p);
                }
                assert(e.0 == p);
                assert(processed_after(entries).last() == p);
            }
        }
    }
}

/// Every included entry's path is recorded as processed.
proof fn lemma_included_in_processed(entries: Seq<(Seq<char>, Seq<char>)>)
    ensures
        forall|i: int|
            0 <= i < included_entries(entries).len() ==> processed_after(entries).contains(
                #[trigger] included_entries(entries)[i].0,
            ),
    decreases entries.len(),
{
    if entries.len() > 0 {
        lemma_included_in_processed(entries.drop_last());
        let prev = processed_after(entries.drop_last());
        let inc = included_entries(entries);
        assert forall|i: int| 0 <= i < inc.len() implies processed_after(entries).contains(
            #[trigger] inc[i].0,
        ) by {
            if i < included_entries(entries.drop_last()).len() {
                assert(prev.contains(included_entries(entries.drop_last())[i].0));
                let k = choose|k: int| 0 <= k < prev.len() && prev[k] == inc[i].0;
                assert(processed_after(entries)[k] == inc[i].0);
            } else {
                assert(inc[i] == entries.last());
                assert(processed_after(entries).last() == inc[i].0);
            }
        }
    }
}

/// No file path appears twice among the included blocks, however often the
/// walk reports it.
pub proof fn lemma_included_paths_distinct(entries: Seq<(Seq<char>, Seq<char>)>)
    ensures
        forall|i: int, j: int|
            0 <= i < j < included_entries(entries).len() ==> #[trigger] included_entries(
                entries,
            )[i].0 != #[trigger] included_entries(entries)[j].0,
    decreases entries.len(),
{
    if entries.len() > 0 {
        lemma_included_paths_distinct(entries.drop_last());
        lemma_included_in_processed(entries.drop_last());
        let prev_inc = included_entries(entries.drop_last());
        let prev = processed_after(entries.drop_last());
        let inc = included_entries(entries);
        assert forall|i: int, j: int| 0 <= i < j < inc.len() implies #[trigger] inc[i].0
            != #[trigger] inc[j].0 by {
            if j < prev_inc.len() {
                assert(prev_inc[i].0 != prev_inc[j].0);
            } else {
                assert(inc[j] == entries.last());
                assert(prev.contains(prev_inc[i].0));
                assert(!prev.contains(entries.last().0));
            }
        }
    }
}

/// Every included entry qualifies: its path carries the extension and its
/// trimmed content is non-empty. Non-matching or whitespace-only files are
/// never included.
pub proof fn lemma_included_contribute(entries: Seq<(Seq<char>, Seq<char>)>)
    ensures
        forall|i: int|
            0 <= i < included_entries(entries).len() ==> contributes(
                #[trigger] included_entries(entries)[i],
            ),
    decreases entries.len(),
{
    if entries.len() > 0 {
        lemma_included_contribute(entries.drop_last());
        let inc = included_entries(entries);
        let prev_inc = included_entries(entries.drop_last());
        assert forall|i: int| 0 <= i < inc.len() implies contributes(#[trigger] inc[i]) by {
            if i < prev_inc.len() {
                assert(contributes(prev_inc[i]));
                assert(inc[i] == prev_inc[i]);
            } else {
                assert(inc[i] == entries.last());
            }
        }
    }
}

/// A file whose trimmed content is empty contributes nothing: the blocks, and
/// so the bytes of the output, are the same with and without its entry.
pub proof fn lemma_empty_trim_adds_nothing(
    entries: Seq<(Seq<char>, Seq<char>)>,
    path: Seq<char>,
    content: Seq<char>,
)
    requires
        trim_spec(content).len() == 0,
    ensures
        blocks_after(entries.push((path, content))) == blocks_after(entries),
{
    assert(entries.push((path, content)).drop_last() =~= entries);
    assert(entries.push((path, content)).last() == (path, content));
}

/// A walk that reports each path once yields exactly one block per
/// contributing entry: a directory with `n` qualifying non-empty files and any
/// number of qualifying whitespace-only ones produces exactly `n` blocks.
pub proof fn lemma_distinct_walk_block_count(entries: Seq<(Seq<char>, Seq<char>)>)
    requires
        forall|i: int, j: int|
            0 <= i < j < entries.len() ==> (#[trigger] entries[i]).0 != (#[trigger] entries[j]).0,
    ensures
        blocks_after(entries).len() == contributing_count(entries),
    decreases entries.len(),
{
    if entries.len() > 0 {
        let rest = entries.drop_last();
        assert(forall|i: int, j: int|
            0 <= i < j < rest.len() ==> (#[trigger] rest[i]).0 != (#[trigger] rest[j]).0);
        lemma_distinct_walk_block_count(rest);
        let e = entries.last();
        if contributes(e) {
            lemma_processed_after_contains(rest, e.0);
            assert(forall|j: int| 0 <= j < rest.len() ==> entries[j] == rest[j]);
            assert(!(exists|j: int| 0 <= j < rest.len() && rest[j].0 == e.0));
            assert(!processed_after(rest).contains(e.0));
        }
    }
}

} // verus!
