//! Range resolution: turning explicit references or an interactive pick
//! into positions in the in-memory commit sequence.

use vstd::prelude::*;
use crate::bytes::{dec_spec, push_bytes, push_dec_u64, push_str, starts_with, sub_bytes, views};
use vstd::string::*;
use crate::history::Commit;
use crate::time::{ymd_spec, push_ymd};
use crate::errors::ReportError;

verus! {

/// Whether `reference` is a (case-sensitive, byte-exact) prefix of the hash
/// of `commits[i]`.
pub open spec fn matches_at(commits: Seq<Commit>, reference: Seq<u8>, i: int) -> bool {
    reference.is_prefix_of(commits[i].hash@)
}

/// Resolves an explicit reference against the commit sequence by prefix
/// match on the full hash: the first match in sequence order wins, and a
/// reference matching nothing fails with `CommitNotFound`.
pub fn resolve_reference(commits: &Vec<Commit>, reference: &Vec<u8>) -> (r: Result<
    usize,
    ReportError,
>)
    ensures
        match r {
            Ok(i) => 0 <= i < commits@.len() && matches_at(commits@, reference@, i as int)
                && (forall|j: int| 0 <= j < i ==> !matches_at(commits@, reference@, j)),
            Err(e) => (e matches ReportError::CommitNotFound(q) && q@ == reference@) && (forall|
                j: int,
            | 0 <= j < commits@.len() ==> !matches_at(commits@, reference@, j)),
        },
{
    let mut i: usize = 0;
    while i < commits.len()
        invariant
            0 <= i <= commits@.len(),
            forall|j: int| 0 <= j < i ==> !matches_at(commits@, reference@, j),
        decreases commits@.len() - i,
    {
        if starts_with(commits[i].hash.as_slice(), reference.as_slice()) {
            return Ok(i);
        }
        i = i + 1;
    }
    Err(ReportError::CommitNotFound(reference.clone()))
}

/// Resolves the outcome of an interactive pick: no answer — or one outside
/// the sequence — means the operator abandoned the run.
pub fn resolve_selection(commits_len: usize, selection: Option<usize>) -> (r: Result<
    usize,
    ReportError,
>)
    ensures
        match r {
            Ok(i) => selection == Some(i) && i < commits_len,
            Err(e) => e matches ReportError::SelectionAborted && (match selection {
                Some(i) => i >= commits_len,
                None => true,
            }),
        },
{
    match selection {
        Some(i) => {
            if i < commits_len {
                Ok(i)
            } else {
                Err(ReportError::SelectionAborted)
            }
        },
        None => Err(ReportError::SelectionAborted),
    }
}

/// The display label of the commit at 0-based position `i`:
/// `<ordinal>. <8-byte hash prefix> - <subject> (<date>)`.
pub open spec fn label_spec(c: Commit, i: int) -> Seq<u8> {
    dec_spec((i + 1) as nat) + ". ".spec_bytes() + c.hash@.take(8) + " - ".spec_bytes()
        + c.subject@ + " (".spec_bytes() + ymd_spec(c.date) + ")".spec_bytes()
}

/// Renders the selection labels for the whole commit sequence, newest
/// first, ordinals starting at 1.
pub fn selection_labels(commits: &Vec<Commit>) -> (r: Vec<Vec<u8>>)
    requires
        forall|i: int|
            0 <= i < commits@.len() ==> (#[trigger] commits@[i]).hash@.len() >= 8
                && commits@[i].wf(),
    ensures
        r@.len() == commits@.len(),
        forall|i: int| 0 <= i < r@.len() ==> views(r@)[i] == label_spec(commits@[i], i),
{
    let mut out: Vec<Vec<u8>> = Vec::new();
    let mut i: usize = 0;
    while i < commits.len()
        invariant
            0 <= i <= commits@.len(),
            out@.len() == i,
            forall|i0: int|
                0 <= i0 < commits@.len() ==> (#[trigger] commits@[i0]).hash@.len() >= 8
                    && commits@[i0].wf(),
            forall|j: int| 0 <= j < i ==> views(out@)[j] == label_spec(commits@[j], j),
        decreases commits@.len() - i,
    {
        let mut label: Vec<u8> = Vec::new();
        push_dec_u64(&mut label, (i as u64) + 1);
        push_str(&mut label, ". ");
        let prefix = sub_bytes(commits[i].hash.as_slice(), 0, 8);
        push_bytes(&mut label, prefix.as_slice());
        push_str(&mut label, " - ");
        push_bytes(&mut label, commits[i].subject.as_slice());
        push_str(&mut label, " (");
        push_ymd(&mut label, &commits[i].date);
        push_str(&mut label, ")");
        proof {
            assert(commits@[i as int].hash@.take(8) =~= commits@[i as int].hash@.subrange(0, 8));
            assert(label@ =~= label_spec(commits@[i as int], i as int));
            crate::bytes::lemma_views_push(out@, label);
        }
        out.push(label);
        i = i + 1;
    }
    out
}

} // verus!
