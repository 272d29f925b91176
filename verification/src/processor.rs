//! The collector of one flatten run. A `ModuleProcessor` is fed the walk
//! entries one by one, records each qualifying path the first time it arrives,
//! and keeps one formatted block per qualifying file whose trimmed content is
//! non-empty, in arrival order. Its state is, provably, the model of
//! `crate::model` applied to the entries it has been fed.

use vstd::prelude::*;

use crate::model::block_of;
use crate::model::blocks_after;
use crate::model::concat_blocks;
use crate::model::contributes;
use crate::model::included_entries;
use crate::model::output_of;
use crate::model::processed_after;
use crate::paths::has_rs_extension;
use crate::paths::is_rs_path;
use crate::text::trim_spec;
use crate::text::trimmed;

verus! {

/// One file's block: the `// File:` marker line, the trimmed content, and a
/// trailing blank line.
pub fn format_block(path: &str, content: &str) -> (r: String)
    ensures
        r@ == block_of(path@, content@),
{
    let mut r = String::new();
    r.append("// File: ");
    r.append(path);
    r.append("\n");
    let t = trimmed(content);
    r.append(t.as_str());
    r.append("\n\n");
    proof {
        assert(r@ =~= block_of(path@, content@));
    }
    r
}

pub struct ModuleProcessor {
    processed_files: Vec<String>,
    result: Vec<String>,
    history: Ghost<Seq<(Seq<char>, Seq<char>)>>,
}

impl ModuleProcessor {
    /// The walk entries this run has been fed, in order.
    pub closed spec fn entries(&self) -> Seq<(Seq<char>, Seq<char>)> {
        self.history@
    }

    /// The paths recorded as processed, in first-arrival order.
    pub closed spec fn processed(&self) -> Seq<Seq<char>> {
        self.processed_files@.map_values(|s: String| s@)
    }

    /// The blocks collected so far, in arrival order.
    pub closed spec fn blocks(&self) -> Seq<Seq<char>> {
        self.result@.map_values(|s: String| s@)
    }

    /// The run's state is exactly the model applied to the entries it was fed.
    pub open spec fn wf(&self) -> bool {
        self.processed() == processed_after(self.entries()) && self.blocks() == blocks_after(
            self.entries(),
        )
    }

    /// A fresh run: nothing processed, nothing collected.
    pub fn new() -> (p: Self)
        ensures
            p.wf(),
            p.entries() == Seq::<(Seq<char>, Seq<char>)>::empty(),
            p.processed() == Seq::<Seq<char>>::empty(),
            p.blocks() == Seq::<Seq<char>>::empty(),
    {
        let p = ModuleProcessor {
            processed_files: Vec::new(),
            result: Vec::new(),
            history: Ghost(Seq::empty()),
        };
        proof {
            assert(p.processed() =~= Seq::<Seq<char>>::empty());
            assert(p.blocks() =~= Seq::<Seq<char>>::empty());
            assert(processed_after(p.entries()) == Seq::<Seq<char>>::empty());
            assert(blocks_after(p.entries()) =~= Seq::<Seq<char>>::empty());
        }
        p
    }

    /// Whether a recorded path equals `path`.
    fn contains_path(&self, path: &String) -> (r: bool)
        ensures
            r == self.processed().contains(path@),
    {
        let mut i: usize = 0;
        while i < self.processed_files.len()
            invariant
                0 <= i <= self.processed_files.len(),
                forall|j: int| 0 <= j < i ==> self.processed_files@[j]@ != path@,
            decreases self.processed_files.len() - i,
        {
            if self.processed_files[i] == *path {
                proof {
                    assert(self.processed()[i as int] == path@);
                }
                return true;
            }
            i += 1;
        }
        proof {
            assert forall|j: int| 0 <= j < self.processed().len() implies #[trigger] self.processed()[j]
                != path@ by {
                assert(self.processed()[j] == self.processed_files@[j]@);
            }
        }
        false
    }

    /// Whether a path should be read and fed to `add_file` now: it qualifies
    /// and has not been processed yet. The caller asks this before reading the
    /// file, so a path the walk reports twice is read at most once.
    pub fn should_include(&self, path: &String) -> (r: bool)
        ensures
            r == (is_rs_path(path@) && !self.processed().contains(path@)),
    {
        has_rs_extension(path.as_str()) && !self.contains_path(path)
    }

    /// Feed one walk entry to the run. A qualifying path seen for the first
    /// time is recorded; its block joins the result unless the trimmed content
    /// is empty. Anything else leaves the run unchanged.
    pub fn add_file(&mut self, path: String, content: &str) -> (added: bool)
        requires
            old(self).wf(),
        ensures
            final(self).wf(),
            final(self).entries() == old(self).entries().push((path@, content@)),
            added == (is_rs_path(path@) && !old(self).processed().contains(path@) && trim_spec(
                content@,
            ).len() > 0),
            final(self).processed() == (if is_rs_path(path@) && !old(self).processed().contains(
                path@,
            ) {
                old(self).processed().push(path@)
            } else {
                old(self).processed()
            }),
            final(self).blocks() == (if added {
                old(self).blocks().push(block_of(path@, content@))
            } else {
                old(self).blocks()
            }),
    {
        let ghost prior = self.history@;
        let ghost e = (path@, content@);
        let qualifies = has_rs_extension(path.as_str());
        let fresh = !self.contains_path(&path);
        let t = trimmed(content);
        let nonempty = !t.as_str().is_empty();
        self.history = Ghost(prior.push(e));
        let mut added = false;
        if qualifies && fresh {
            if nonempty {
                let block = format_block(path.as_str(), content);
                self.result.push(block);
                added = true;
            }
            self.processed_files.push(path);
        }
        proof {
            assert(prior.push(e).drop_last() =~= prior);
            assert(prior.push(e).last() == e);
            if qualifies && fresh {
                assert(self.processed() =~= old(self).processed().push(e.0));
                if nonempty {
                    assert(self.blocks() =~= old(self).blocks().push(block_of(e.0, e.1)));
                    assert(included_entries(prior.push(e)) == included_entries(prior).push(e));
                    assert(self.blocks() =~= blocks_after(prior.push(e)));
                } else {
                    assert(!contributes(e));
                }
            }
        }
        added
    }

    /// How many blocks the run holds.
    pub fn block_count(&self) -> (n: usize)
        ensures
            n == self.blocks().len(),
    {
        self.result.len()
    }

    /// The concatenation of the collected blocks, in arrival order, with
    /// nothing between them.
    pub fn concatenated(&self) -> (r: String)
        ensures
            r@ == concat_blocks(self.blocks()),
    {
        let mut r = String::new();
        let mut i: usize = 0;
        while i < self.result.len()
            invariant
                0 <= i <= self.result.len(),
                r@ == concat_blocks(self.blocks().subrange(0, i as int)),
            decreases self.result.len() - i,
        {
            r.append(self.result[i].as_str());
            proof {
                let bs = self.blocks();
                assert(bs.subrange(0, i + 1).drop_last() =~= bs.subrange(0, i as int));
                assert(bs.subrange(0, i + 1).last() == bs[i as int]);
                assert(bs[i as int] == self.result@[i as int]@);
            }
            i += 1;
        }
        proof {
            assert(self.blocks().subrange(0, self.blocks().len() as int) =~= self.blocks());
        }
        r
    }
}

/// Idempotence, the timestamp aside: two runs fed the same walk entries record
/// the same paths and hold the same blocks, and with the same directory and
/// timestamp their whole outputs are byte-identical.
pub proof fn lemma_runs_agree(
    a: &ModuleProcessor,
    b: &ModuleProcessor,
    dir: Seq<char>,
    timestamp: Seq<char>,
)
    requires
        a.wf(),
        b.wf(),
        a.entries() == b.entries(),
    ensures
        a.processed() == b.processed(),
        a.blocks() == b.blocks(),
        output_of(dir, timestamp, a.blocks()) == output_of(dir, timestamp, b.blocks()),
{
}

} // verus!
