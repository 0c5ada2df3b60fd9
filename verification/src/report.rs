//! The plain report synthesizer: a pure, deterministic rendering of a
//! resolved range and its commit sequence, in the order received.

use vstd::prelude::*;
use vstd::string::*;
use crate::bytes::{
    dec_spec, push_bytes, push_dec_u64, push_str, is_blank, split_lines, lines_spec, trim_spec,
    views,
};
use crate::history::Commit;
use crate::time::{UtcTime, ymd_hms_spec, push_ymd_hms};

verus! {

/// Description lines, each indented five spaces and newline-terminated.
pub open spec fn indented_lines_spec(ls: Seq<Seq<u8>>) -> Seq<u8>
    decreases ls.len(),
{
    if ls.len() == 0 {
        Seq::<u8>::empty()
    } else {
        "     ".spec_bytes() + ls[0] + seq![10u8] + indented_lines_spec(ls.drop_first())
    }
}

proof fn lemma_indented_push(ls: Seq<Seq<u8>>, l: Seq<u8>)
    ensures
        indented_lines_spec(ls.push(l)) =~= indented_lines_spec(ls) + "     ".spec_bytes() + l
            + seq![10u8],
    decreases ls.len(),
{
    if ls.len() == 0 {
        assert(ls.push(l)[0] == l);
        assert(ls.push(l).drop_first() =~= Seq::<Seq<u8>>::empty());
        assert(indented_lines_spec(ls.push(l).drop_first()) =~= Seq::<u8>::empty());
    } else {
        assert(ls.push(l)[0] == ls[0]);
        assert(ls.push(l).drop_first() =~= ls.drop_first().push(l));
        assert(indented_lines_spec(ls.push(l).drop_first()) == indented_lines_spec(
            ls.drop_first().push(l),
        ));
        lemma_indented_push(ls.drop_first(), l);
    }
}

/// The Description block: present only when the body is non-blank after
/// trimming, and then holding every body line indented.
pub open spec fn description_spec(body: Seq<u8>) -> Seq<u8> {
    if trim_spec(body).len() == 0 {
        Seq::<u8>::empty()
    } else {
        "   Description:\n".spec_bytes() + indented_lines_spec(lines_spec(body))
    }
}

/// Changed-file bullets, one per path, in the order received.
pub open spec fn file_bullets_spec(fs: Seq<Seq<u8>>) -> Seq<u8>
    decreases fs.len(),
{
    if fs.len() == 0 {
        Seq::<u8>::empty()
    } else {
        "     - ".spec_bytes() + fs[0] + seq![10u8] + file_bullets_spec(fs.drop_first())
    }
}

proof fn lemma_bullets_push(fs: Seq<Seq<u8>>, f: Seq<u8>)
    ensures
        file_bullets_spec(fs.push(f)) =~= file_bullets_spec(fs) + "     - ".spec_bytes() + f
            + seq![10u8],
    decreases fs.len(),
{
    if fs.len() == 0 {
        assert(fs.push(f)[0] == f);
        assert(fs.push(f).drop_first() =~= Seq::<Seq<u8>>::empty());
        assert(file_bullets_spec(fs.push(f).drop_first()) =~= Seq::<u8>::empty());
    } else {
        assert(fs.push(f)[0] == fs[0]);
        assert(fs.push(f).drop_first() =~= fs.drop_first().push(f));
        assert(file_bullets_spec(fs.push(f).drop_first()) == file_bullets_spec(
            fs.drop_first().push(f),
        ));
        lemma_bullets_push(fs.drop_first(), f);
    }
}

/// The Files Changed block: present only when the list is non-empty.
pub open spec fn files_block_spec(fs: Seq<Seq<u8>>) -> Seq<u8> {
    if fs.len() == 0 {
        Seq::<u8>::empty()
    } else {
        "   Files Changed:\n".spec_bytes() + file_bullets_spec(fs)
    }
}

/// The fixed head of a numbered commit block: subject, hash, author, date.
pub open spec fn commit_head_spec(c: Commit, num: nat) -> Seq<u8> {
    dec_spec(num) + ". ".spec_bytes() + c.subject@ + "\n   Hash: ".spec_bytes() + c.hash@
        + "\n   Author: ".spec_bytes() + c.author@ + "\n   Date: ".spec_bytes() + ymd_hms_spec(
        c.date,
    ) + seq![10u8]
}

/// One numbered commit block of the detailed section.
pub open spec fn commit_block_spec(c: Commit, num: nat) -> Seq<u8> {
    commit_head_spec(c, num) + description_spec(c.body@) + files_block_spec(
        views(c.files_changed@),
    ) + seq![10u8]
}

/// A commit with a blank body gets no Description block, and one with no
/// changed files gets no Files Changed block: the numbered block collapses
/// to its remaining parts.
pub proof fn lemma_empty_sections_omitted(c: Commit, num: nat)
    ensures
        trim_spec(c.body@).len() == 0 ==> commit_block_spec(c, num) == commit_head_spec(c, num)
            + files_block_spec(views(c.files_changed@)) + seq![10u8],
        c.files_changed@.len() == 0 ==> commit_block_spec(c, num) == commit_head_spec(c, num)
            + description_spec(c.body@) + seq![10u8],
{
    if trim_spec(c.body@).len() == 0 {
        assert(description_spec(c.body@) == Seq::<u8>::empty());
        assert(commit_head_spec(c, num) + Seq::<u8>::empty() =~= commit_head_spec(c, num));
    }
    if c.files_changed@.len() == 0 {
        assert(views(c.files_changed@).len() == 0);
        assert(files_block_spec(views(c.files_changed@)) == Seq::<u8>::empty());
        assert((commit_head_spec(c, num) + description_spec(c.body@)) + Seq::<u8>::empty() =~= (
        commit_head_spec(c, num) + description_spec(c.body@)));
    }
}

/// The numbered blocks for `cs`, numbering starting at `num`.
pub open spec fn blocks_spec(cs: Seq<Commit>, num: nat) -> Seq<u8>
    decreases cs.len(),
{
    if cs.len() == 0 {
        Seq::<u8>::empty()
    } else {
        commit_block_spec(cs[0], num) + blocks_spec(cs.drop_first(), num + 1)
    }
}

proof fn lemma_blocks_push(cs: Seq<Commit>, c: Commit, num: nat)
    ensures
        blocks_spec(cs.push(c), num) =~= blocks_spec(cs, num) + commit_block_spec(
            c,
            num + cs.len(),
        ),
    decreases cs.len(),
{
    if cs.len() == 0 {
        assert(cs.push(c)[0] == c);
        assert(cs.push(c).drop_first() =~= Seq::<Commit>::empty());
        assert(blocks_spec(cs.push(c).drop_first(), num + 1) =~= Seq::<u8>::empty());
    } else {
        assert(cs.push(c)[0] == cs[0]);
        assert(cs.push(c).drop_first() =~= cs.drop_first().push(c));
        assert(blocks_spec(cs.push(c).drop_first(), num + 1) == blocks_spec(
            cs.drop_first().push(c),
            num + 1,
        ));
        lemma_blocks_push(cs.drop_first(), c, num + 1);
    }
}

/// The whole plain report: header, summary, then the numbered blocks in
/// the order received (newest first), numbering 1-based.
pub open spec fn plain_report_spec(
    repo: Seq<u8>,
    now: UtcTime,
    from: Commit,
    to: Commit,
    cs: Seq<Commit>,
) -> Seq<u8> {
    "Git Commit Report\n================\n\nRepository: ".spec_bytes() + repo
        + "\nGenerated: ".spec_bytes() + ymd_hms_spec(now) + " UTC\nCommit Range: ".spec_bytes()
        + from.hash@ + " -> ".spec_bytes() + to.hash@ + "\nTotal Commits: ".spec_bytes()
        + dec_spec(cs.len()) + "\n\nSummary\n-------\nFrom: ".spec_bytes() + from.subject@
        + " (".spec_bytes() + from.hash@ + ")\nTo: ".spec_bytes() + to.subject@
        + " (".spec_bytes() + to.hash@ + ")\nDate Range: ".spec_bytes() + ymd_hms_spec(from.date)
        + " to ".spec_bytes() + ymd_hms_spec(to.date)
        + "\n\nDetailed Commits\n================\n\n".spec_bytes() + blocks_spec(cs, 1)
}

/// Appends one numbered commit block.
pub fn push_commit_block(out: &mut Vec<u8>, c: &Commit, num: u64)
    requires
        c.wf(),
    ensures
        final(out)@ == old(out)@ + commit_block_spec(*c, num as nat),
{
    push_dec_u64(out, num);
    push_str(out, ". ");
    push_bytes(out, c.subject.as_slice());
    push_str(out, "\n   Hash: ");
    push_bytes(out, c.hash.as_slice());
    push_str(out, "\n   Author: ");
    push_bytes(out, c.author.as_slice());
    push_str(out, "\n   Date: ");
    push_ymd_hms(out, &c.date);
    out.push(10);
    let ghost head_done = out@;
    proof {
        assert(head_done =~= old(out)@ + commit_head_spec(*c, num as nat));
    }
    if !is_blank(c.body.as_slice()) {
        push_str(out, "   Description:\n");
        let lines = split_lines(c.body.as_slice());
        let ghost lv = lines_spec(c.body@);
        let ghost desc_base = out@;
        let mut i: usize = 0;
        while i < lines.len()
            invariant
                0 <= i <= lines@.len(),
                views(lines@) == lv,
                out@ =~= desc_base + indented_lines_spec(lv.take(i as int)),
            decreases lines@.len() - i,
        {
            proof {
                assert(lv.take(i + 1 as int) =~= lv.take(i as int).push(lv[i as int]));
                lemma_indented_push(lv.take(i as int), lv[i as int]);
                assert(views(lines@)[i as int] == lines@[i as int]@);
            }
            push_str(out, "     ");
            push_bytes(out, lines[i].as_slice());
            out.push(10);
            i = i + 1;
        }
        proof {
            assert(lv.take(lv.len() as int) =~= lv);
            assert(out@ =~= head_done + description_spec(c.body@));
        }
    } else {
        proof {
            assert(out@ =~= head_done + description_spec(c.body@));
        }
    }
    let ghost desc_done = out@;
    if c.files_changed.len() > 0 {
        push_str(out, "   Files Changed:\n");
        let ghost fv = views(c.files_changed@);
        let ghost files_base = out@;
        let mut i: usize = 0;
        while i < c.files_changed.len()
            invariant
                0 <= i <= c.files_changed@.len(),
                fv == views(c.files_changed@),
                out@ =~= files_base + file_bullets_spec(fv.take(i as int)),
            decreases c.files_changed@.len() - i,
        {
            proof {
                assert(fv.take(i + 1 as int) =~= fv.take(i as int).push(fv[i as int]));
                lemma_bullets_push(fv.take(i as int), fv[i as int]);
                assert(views(c.files_changed@)[i as int] == c.files_changed@[i as int]@);
            }
            push_str(out, "     - ");
            push_bytes(out, c.files_changed[i].as_slice());
            out.push(10);
            i = i + 1;
        }
        proof {
            assert(fv.take(fv.len() as int) =~= fv);
            assert(out@ =~= desc_done + files_block_spec(views(c.files_changed@)));
        }
    } else {
        proof {
            assert(views(c.files_changed@).len() == 0);
            assert(out@ =~= desc_done + files_block_spec(views(c.files_changed@)));
        }
    }
    out.push(10);
    proof {
        assert(out@ =~= old(out)@ + commit_block_spec(*c, num as nat));
    }
}

/// Synthesizes the plain report. Pure and deterministic: the result is
/// exactly [`plain_report_spec`] of the inputs, with `now` the one point
/// where the generation moment enters.
pub fn generate_report(
    repo: &Vec<u8>,
    now: &UtcTime,
    from: &Commit,
    to: &Commit,
    commits: &Vec<Commit>,
) -> (r: Vec<u8>)
    requires
        now.wf(),
        from.wf(),
        to.wf(),
        forall|i: int| 0 <= i < commits@.len() ==> (#[trigger] commits@[i]).wf(),
    ensures
        r@ == plain_report_spec(repo@, *now, *from, *to, commits@),
{
    let mut out: Vec<u8> = Vec::new();
    push_str(&mut out, "Git Commit Report\n================\n\nRepository: ");
    push_bytes(&mut out, repo.as_slice());
    push_str(&mut out, "\nGenerated: ");
    push_ymd_hms(&mut out, now);
    push_str(&mut out, " UTC\nCommit Range: ");
    push_bytes(&mut out, from.hash.as_slice());
    push_str(&mut out, " -> ");
    push_bytes(&mut out, to.hash.as_slice());
    push_str(&mut out, "\nTotal Commits: ");
    push_dec_u64(&mut out, commits.len() as u64);
    push_str(&mut out, "\n\nSummary\n-------\nFrom: ");
    push_bytes(&mut out, from.subject.as_slice());
    push_str(&mut out, " (");
    push_bytes(&mut out, from.hash.as_slice());
    push_str(&mut out, ")\nTo: ");
    push_bytes(&mut out, to.subject.as_slice());
    push_str(&mut out, " (");
    push_bytes(&mut out, to.hash.as_slice());
    push_str(&mut out, ")\nDate Range: ");
    push_ymd_hms(&mut out, &from.date);
    push_str(&mut out, " to ");
    push_ymd_hms(&mut out, &to.date);
    push_str(&mut out, "\n\nDetailed Commits\n================\n\n");
    let ghost header = out@;
    let mut i: usize = 0;
    while i < commits.len()
        invariant
            0 <= i <= commits@.len(),
            forall|i0: int| 0 <= i0 < commits@.len() ==> (#[trigger] commits@[i0]).wf(),
            out@ =~= header + blocks_spec(commits@.take(i as int), 1),
        decreases commits@.len() - i,
    {
        proof {
            assert(commits@.take(i + 1 as int) =~= commits@.take(i as int).push(
                commits@[i as int],
            ));
            lemma_blocks_push(commits@.take(i as int), commits@[i as int], 1);
        }
        push_commit_block(&mut out, &commits[i], (i as u64) + 1);
        i = i + 1;
    }
    proof {
        assert(commits@.take(commits@.len() as int) =~= commits@);
        assert(out@ =~= plain_report_spec(repo@, *now, *from, *to, commits@));
    }
    out
}

/// The default output file name: marks delegated reports and carries the
/// generation moment.
pub open spec fn output_name_spec(ai: bool, now: UtcTime) -> Seq<u8> {
    "git-report".spec_bytes() + (if ai {
        "-ai".spec_bytes()
    } else {
        Seq::<u8>::empty()
    }) + seq![45u8] + crate::time::compact_spec(now) + ".txt".spec_bytes()
}

/// Renders the default output file name for a run.
pub fn default_output_name(ai: bool, now: &UtcTime) -> (r: Vec<u8>)
    requires
        now.wf(),
    ensures
        r@ == output_name_spec(ai, *now),
{
    let mut out: Vec<u8> = Vec::new();
    push_str(&mut out, "git-report");
    if ai {
        push_str(&mut out, "-ai");
    }
    out.push(45);
    crate::time::push_compact(&mut out, now);
    push_str(&mut out, ".txt");
    proof {
        assert(out@ =~= output_name_spec(ai, *now));
    }
    out
}

/// Field-view equality of two commits: same hash, author, timestamp,
/// subject, body and changed files, byte for byte.
pub open spec fn commit_view_eq(a: Commit, b: Commit) -> bool {
    a.hash@ == b.hash@ && a.author@ == b.author@ && a.date == b.date && a.subject@ == b.subject@
        && a.body@ == b.body@ && views(a.files_changed@) == views(b.files_changed@)
}

proof fn lemma_blocks_view_eq(cs1: Seq<Commit>, cs2: Seq<Commit>, num: nat)
    requires
        cs1.len() == cs2.len(),
        forall|i: int| 0 <= i < cs1.len() ==> commit_view_eq(#[trigger] cs1[i], cs2[i]),
    ensures
        blocks_spec(cs1, num) == blocks_spec(cs2, num),
    decreases cs1.len(),
{
    if cs1.len() > 0 {
        assert(commit_view_eq(cs1[0], cs2[0]));
        assert(commit_block_spec(cs1[0], num) == commit_block_spec(cs2[0], num));
        assert(forall|i: int|
            0 <= i < cs1.drop_first().len() ==> commit_view_eq(
                #[trigger] cs1.drop_first()[i],
                cs2.drop_first()[i],
            ));
        lemma_blocks_view_eq(cs1.drop_first(), cs2.drop_first(), num + 1);
    }
}

/// Plain synthesis is pure and deterministic: two runs over field-equal
/// inputs and the same generation moment yield byte-identical report text —
/// the moment is the one input the embedded timestamp depends on.
pub proof fn lemma_plain_report_deterministic(
    repo: Seq<u8>,
    now: UtcTime,
    from1: Commit,
    from2: Commit,
    to1: Commit,
    to2: Commit,
    cs1: Seq<Commit>,
    cs2: Seq<Commit>,
)
    requires
        commit_view_eq(from1, from2),
        commit_view_eq(to1, to2),
        cs1.len() == cs2.len(),
        forall|i: int| 0 <= i < cs1.len() ==> commit_view_eq(#[trigger] cs1[i], cs2[i]),
    ensures
        plain_report_spec(repo, now, from1, to1, cs1) == plain_report_spec(
            repo,
            now,
            from2,
            to2,
            cs2,
        ),
{
    lemma_blocks_view_eq(cs1, cs2, 1);
}

} // verus!
