//! The bulk transform applied over a documentation tree.
//!
//! The tree walk itself performs file I/O and lives outside the library;
//! it hands every readable HTML file's text in, writes rewritten text
//! back, and reports what finally became of each file.  This module holds
//! the verified core: which transform a mode applies, and the tally over
//! the per-file outcomes.  A file whose read or write failed is counted in
//! neither tally and never stops a run.

use vstd::prelude::*;

use crate::injector;

verus! {

/// Counters of one bulk run: files rewritten, and files left alone.
#[derive(Debug)]
pub struct Summary {
    pub modified: usize,
    pub skipped: usize,
}

impl Summary {
    /// A run that has processed nothing yet.
    pub fn new() -> (r: Summary)
        ensures
            r.modified == 0,
            r.skipped == 0,
    {
        Summary { modified: 0, skipped: 0 }
    }
}

/// Which transform a bulk run applies.
pub enum Mode {
    Enhance,
    Revert,
}

/// The transform a mode applies to one document's text.
pub open spec fn transform_spec(mode: Mode, c: Seq<char>) -> Option<Seq<char>> {
    match mode {
        Mode::Enhance => injector::inject_spec(c),
        Mode::Revert => injector::revert_spec(c),
    }
}

/// Applies the mode's transform to one document's text; `None` means the
/// text needs no change.
pub fn process_content(content: &str, mode: &Mode) -> (r: Option<String>)
    ensures
        match r {
            Some(s) => transform_spec(*mode, content@) == Some(s@),
            None => transform_spec(*mode, content@) is None,
        },
{
    match mode {
        Mode::Enhance => injector::inject(content),
        Mode::Revert => injector::revert(content),
    }
}

/// The rewritten text owed for one read outcome: nothing for an unreadable
/// file or one the transform leaves alone, the transformed text otherwise.
pub open spec fn batch_slot_ok(input: Option<String>, output: Option<String>, mode: Mode) -> bool {
    match input {
        None => output is None,
        Some(c) => match transform_spec(mode, c@) {
            Some(t) => output matches Some(s) && s@ == t,
            None => output is None,
        },
    }
}

/// Applies the mode's transform to a batch of read results.
///
/// The returned vector holds, slot for slot, the text to write back, or
/// `None` where the file could not be read or needs no change.  An
/// unreadable file never aborts the batch.  Counting happens afterwards,
/// from what became of each file, through [`tally_outcomes`].
pub fn process_batch(reads: &Vec<Option<String>>, mode: &Mode) -> (r: Vec<Option<String>>)
    ensures
        r@.len() == reads@.len(),
        forall|i: int| 0 <= i < reads@.len() ==> batch_slot_ok(reads@[i], #[trigger] r@[i], *mode),
{
    let n = reads.len();
    let mut out: Vec<Option<String>> = Vec::new();
    let mut i: usize = 0;
    while i < n
        invariant
            n == reads@.len(),
            i <= n,
            out@.len() == i,
            forall|k: int| 0 <= k < i ==> batch_slot_ok(reads@[k], #[trigger] out@[k], *mode),
        decreases n - i,
    {
        match &reads[i] {
            Some(content) => {
                out.push(process_content(content.as_str(), mode));
            },
            None => {
                out.push(None);
            },
        }
        i = i + 1;
    }
    out
}

/// What finally became of one file in a bulk run.
#[derive(Debug, Clone, Copy)]
pub enum FileOutcome {
    /// Transformed and written back whole.
    Rewritten,
    /// Left alone: a reserved name, or the transform had nothing to do.
    Unchanged,
    /// Reading or writing it failed; the walk went on regardless.
    Failed,
}

pub open spec fn count_rewritten(s: Seq<FileOutcome>) -> int
    decreases s.len(),
{
    if s.len() == 0 {
        0
    } else {
        (if s[0] is Rewritten {
            1int
        } else {
            0int
        }) + count_rewritten(s.skip(1))
    }
}

pub open spec fn count_unchanged(s: Seq<FileOutcome>) -> int
    decreases s.len(),
{
    if s.len() == 0 {
        0
    } else {
        (if s[0] is Unchanged {
            1int
        } else {
            0int
        }) + count_unchanged(s.skip(1))
    }
}

pub open spec fn count_failed(s: Seq<FileOutcome>) -> int
    decreases s.len(),
{
    if s.len() == 0 {
        0
    } else {
        (if s[0] is Failed {
            1int
        } else {
            0int
        }) + count_failed(s.skip(1))
    }
}

/// Every outcome falls in exactly one of the three counts.
pub proof fn lemma_outcome_counts(s: Seq<FileOutcome>)
    ensures
        count_rewritten(s) + count_unchanged(s) + count_failed(s) == s.len(),
    decreases s.len(),
{
    if s.len() > 0 {
        lemma_outcome_counts(s.skip(1));
    }
}

/// Tallies one bulk run from its per-file outcomes.
///
/// A file counts as modified exactly when it was rewritten and written
/// back whole, and as skipped exactly when it was left alone; a file whose
/// read or write failed is counted in neither, so `modified + skipped` is
/// exactly the number of files handled without a fault.
pub fn tally_outcomes(outcomes: &Vec<FileOutcome>) -> (s: Summary)
    ensures
        s.modified == count_rewritten(outcomes@),
        s.skipped == count_unchanged(outcomes@),
        s.modified + s.skipped + count_failed(outcomes@) == outcomes@.len(),
{
    let n = outcomes.len();
    let mut modified: usize = 0;
    let mut skipped: usize = 0;
    let mut i: usize = 0;
    proof {
        assert(outcomes@.skip(0) =~= outcomes@);
    }
    while i < n
        invariant
            n == outcomes@.len(),
            i <= n,
            modified <= i,
            skipped <= i,
            modified + count_rewritten(outcomes@.skip(i as int)) == count_rewritten(outcomes@),
            skipped + count_unchanged(outcomes@.skip(i as int)) == count_unchanged(outcomes@),
        decreases n - i,
    {
        proof {
            assert(outcomes@.skip(i as int).skip(1) =~= outcomes@.skip(i + 1));
            assert(outcomes@.skip(i as int)[0] == outcomes@[i as int]);
        }
        match outcomes[i] {
            FileOutcome::Rewritten => {
                modified = modified + 1;
            },
            FileOutcome::Unchanged => {
                skipped = skipped + 1;
            },
            FileOutcome::Failed => {},
        }
        i = i + 1;
    }
    proof {
        assert(outcomes@.skip(n as int) =~= Seq::<FileOutcome>::empty());
        lemma_outcome_counts(outcomes@);
    }
    Summary { modified, skipped }
}

} // verus!
