//! Commit records and the parsing of history-query output.
//!
//! A history listing is one line per commit, `hash|author|date|subject`;
//! lines with fewer than four fields are tolerated and skipped. Per commit,
//! two further query outputs carry the full message (whose first line is the
//! subject and is stripped) and the changed-file list.

use vstd::prelude::*;
use vstd::string::*;
use vstd::utf8::valid_utf8;
use crate::bytes::{
    split_all, split_bytes, split_lines, lines_spec, join_spec, join_from, trim_spec, trim_bytes,
    is_blank, starts_with, views, lemma_split_all_cons, lemma_split_all_no_sep, lemma_join_split,
    lemma_split_all_len,
};
use crate::time::{UtcTime, timestamp_spec, parse_timestamp};
use crate::errors::ReportError;

verus! {

/// Relies on std's `str::from_utf8`: it accepts exactly the byte sequences
/// that vstd's `valid_utf8` describes.
#[verifier::external_body]
pub(crate) fn is_valid_utf8(b: &[u8]) -> (r: bool)
    ensures
        r == valid_utf8(b@),
{
    core::str::from_utf8(b).is_ok()
}

/// An immutable snapshot of one recorded change.
#[derive(Debug, Clone)]
pub struct Commit {
    /// Full revision identifier.
    pub hash: Vec<u8>,
    /// Author display name.
    pub author: Vec<u8>,
    /// Commit time, normalized to UTC.
    pub date: UtcTime,
    /// Single-line summary.
    pub subject: Vec<u8>,
    /// Extended description: the message with its first line removed.
    pub body: Vec<u8>,
    /// Changed paths, in the tool's native reporting order.
    pub files_changed: Vec<Vec<u8>>,
}

impl Commit {
    /// A commit is renderable when its timestamp is.
    pub open spec fn wf(self) -> bool {
        self.date.wf()
    }
}

/// The four leading fields of one listing line, if it has at least four.
pub struct LineRecord {
    pub hash: Vec<u8>,
    pub author: Vec<u8>,
    pub date_raw: Vec<u8>,
    pub subject: Vec<u8>,
}

/// The field view of a listing record.
pub open spec fn rec_view(r: LineRecord) -> (Seq<u8>, Seq<u8>, Seq<u8>, Seq<u8>) {
    (r.hash@, r.author@, r.date_raw@, r.subject@)
}

/// The field views of a sequence of listing records.
pub open spec fn recs_views(rs: Seq<LineRecord>) -> Seq<(Seq<u8>, Seq<u8>, Seq<u8>, Seq<u8>)> {
    rs.map_values(|r: LineRecord| rec_view(r))
}

pub proof fn lemma_recs_views_push(rs: Seq<LineRecord>, r: LineRecord)
    ensures
        recs_views(rs.push(r)) =~= recs_views(rs).push(rec_view(r)),
{
}

/// The fields of one listing line: the first four pipe-delimited pieces,
/// or nothing when the line has fewer than four.
pub open spec fn parse_line_spec(line: Seq<u8>) -> Option<(Seq<u8>, Seq<u8>, Seq<u8>, Seq<u8>)> {
    let ps = split_all(line, 124);
    if ps.len() >= 4 {
        Some((ps[0], ps[1], ps[2], ps[3]))
    } else {
        None
    }
}

/// The records of the well-formed lines among `ls`, in order; lines with
/// fewer than four fields contribute nothing.
pub open spec fn records_spec(ls: Seq<Seq<u8>>) -> Seq<(Seq<u8>, Seq<u8>, Seq<u8>, Seq<u8>)>
    decreases ls.len(),
{
    if ls.len() == 0 {
        Seq::<(Seq<u8>, Seq<u8>, Seq<u8>, Seq<u8>)>::empty()
    } else {
        let rest = records_spec(ls.drop_first());
        match parse_line_spec(ls[0]) {
            Some(r) => seq![r] + rest,
            None => rest,
        }
    }
}

pub proof fn lemma_records_push(ls: Seq<Seq<u8>>, l: Seq<u8>)
    ensures
        records_spec(ls.push(l)) =~= records_spec(ls) + (match parse_line_spec(l) {
            Some(r) => seq![r],
            None => Seq::<(Seq<u8>, Seq<u8>, Seq<u8>, Seq<u8>)>::empty(),
        }),
    decreases ls.len(),
{
    let tail = match parse_line_spec(l) {
        Some(r) => seq![r],
        None => Seq::<(Seq<u8>, Seq<u8>, Seq<u8>, Seq<u8>)>::empty(),
    };
    if ls.len() == 0 {
        assert(ls.push(l)[0] == l);
        assert(ls.push(l).drop_first() =~= Seq::<Seq<u8>>::empty());
        assert(records_spec(ls.push(l).drop_first()) == records_spec(Seq::<Seq<u8>>::empty()));
        assert(records_spec(ls.push(l)) =~= tail);
        assert(records_spec(ls) =~= Seq::<(Seq<u8>, Seq<u8>, Seq<u8>, Seq<u8>)>::empty());
    } else {
        let d = ls.drop_first();
        assert(ls.push(l)[0] == ls[0]);
        assert(ls.push(l).drop_first() =~= d.push(l));
        assert(records_spec(ls.push(l).drop_first()) == records_spec(d.push(l)));
        lemma_records_push(d, l);
        match parse_line_spec(ls[0]) {
            Some(r0) => {
                assert(records_spec(ls.push(l)) == seq![r0] + records_spec(d.push(l)));
                assert(records_spec(ls) == seq![r0] + records_spec(d));
                assert(seq![r0] + (records_spec(d) + tail) =~= (seq![r0] + records_spec(d))
                    + tail);
            },
            None => {
                assert(records_spec(ls.push(l)) == records_spec(d.push(l)));
                assert(records_spec(ls) == records_spec(d));
            },
        }
    }
}

/// A line with fewer than four pipe-delimited fields is dropped without
/// disturbing the records of the lines around it.
pub proof fn lemma_malformed_line_dropped(pre: Seq<Seq<u8>>, bad: Seq<u8>, post: Seq<Seq<u8>>)
    requires
        parse_line_spec(bad) is None,
    ensures
        records_spec(pre + seq![bad] + post) == records_spec(pre + post),
    decreases pre.len(),
{
    if pre.len() == 0 {
        let u = pre + seq![bad] + post;
        assert(u =~= seq![bad] + post);
        assert(u[0] == bad);
        assert(u.drop_first() =~= post);
        assert(records_spec(u) == records_spec(post));
        assert(pre + post =~= post);
    } else {
        let u = pre + seq![bad] + post;
        let v = pre + post;
        assert(u[0] == pre[0]);
        assert(v[0] == pre[0]);
        assert(u.drop_first() =~= pre.drop_first() + seq![bad] + post);
        assert(v.drop_first() =~= pre.drop_first() + post);
        lemma_malformed_line_dropped(pre.drop_first(), bad, post);
        match parse_line_spec(pre[0]) {
            Some(r0) => {
                assert(records_spec(u) == seq![r0] + records_spec(u.drop_first()));
                assert(records_spec(v) == seq![r0] + records_spec(v.drop_first()));
            },
            None => {
                assert(records_spec(u) == records_spec(u.drop_first()));
                assert(records_spec(v) == records_spec(v.drop_first()));
            },
        }
    }
}

/// The records of a whole history listing.
pub open spec fn history_records_spec(out: Seq<u8>) -> Seq<(Seq<u8>, Seq<u8>, Seq<u8>, Seq<u8>)> {
    records_spec(lines_spec(out))
}

/// An empty listing holds no records: a range query whose endpoints
/// coincide makes the tool report nothing, and parsing that nothing yields
/// the empty commit sequence.
pub proof fn lemma_empty_listing_empty()
    ensures
        history_records_spec(Seq::<u8>::empty()) =~= Seq::<(
            Seq<u8>,
            Seq<u8>,
            Seq<u8>,
            Seq<u8>,
        )>::empty(),
{
    assert(lines_spec(Seq::<u8>::empty()) =~= Seq::<Seq<u8>>::empty());
}

/// Parses the output of a history listing query.
///
/// A failed query or undecodable output is fatal for the listing; a
/// malformed line is not, it is skipped.
pub fn parse_history_output(success: bool, out: &Vec<u8>) -> (r: Result<
    Vec<LineRecord>,
    ReportError,
>)
    ensures
        !success ==> r matches Err(ReportError::HistoryQueryFailed),
        success && !valid_utf8(out@) ==> r matches Err(ReportError::HistoryQueryFailed),
        success && valid_utf8(out@) ==> (r matches Ok(v) && recs_views(v@)
            == history_records_spec(out@)),
{
    if !success {
        return Err(ReportError::HistoryQueryFailed);
    }
    if !is_valid_utf8(out.as_slice()) {
        return Err(ReportError::HistoryQueryFailed);
    }
    let lines = split_lines(out.as_slice());
    let ghost lviews = lines_spec(out@);
    let mut recs: Vec<LineRecord> = Vec::new();
    let mut i: usize = 0;
    while i < lines.len()
        invariant
            0 <= i <= lines@.len(),
            views(lines@) == lviews,
            recs_views(recs@) =~= records_spec(lviews.take(i as int)),
        decreases lines@.len() - i,
    {
        let ghost line = lviews[i as int];
        proof {
            assert(lviews.take(i + 1 as int) =~= lviews.take(i as int).push(line));
            lemma_records_push(lviews.take(i as int), line);
            assert(views(lines@)[i as int] == lines@[i as int]@);
        }
        let mut ps = split_bytes(lines[i].as_slice(), 124);
        proof {
            assert(views(ps@) == split_all(line, 124));
        }
        if ps.len() >= 4 {
            let hash = ps.remove(0);
            let author = ps.remove(0);
            let date_raw = ps.remove(0);
            let subject = ps.remove(0);
            proof {
                assert(hash@ == split_all(line, 124)[0]);
                assert(author@ == split_all(line, 124)[1]);
                assert(date_raw@ == split_all(line, 124)[2]);
                assert(subject@ == split_all(line, 124)[3]);
            }
            let rec = LineRecord { hash, author, date_raw, subject };
            proof {
                lemma_recs_views_push(recs@, rec);
            }
            recs.push(rec);
        }
        i = i + 1;
    }
    proof {
        assert(lviews.take(lviews.len() as int) =~= lviews);
    }
    Ok(recs)
}

/// The extended description carried by a full-message query output: the
/// message's lines after the first, glued back together.
pub open spec fn body_spec(out: Seq<u8>) -> Seq<u8> {
    if lines_spec(out).len() == 0 {
        Seq::<u8>::empty()
    } else {
        join_spec(lines_spec(out).skip(1), 10)
    }
}

/// Extracts the extended description from a full-message query output.
pub fn extract_body(success: bool, out: &Vec<u8>) -> (r: Result<Vec<u8>, ReportError>)
    ensures
        !success ==> r matches Err(ReportError::HistoryQueryFailed),
        success && !valid_utf8(out@) ==> r matches Err(ReportError::HistoryQueryFailed),
        success && valid_utf8(out@) ==> (r matches Ok(b) && b@ == body_spec(out@)),
{
    if !success {
        return Err(ReportError::HistoryQueryFailed);
    }
    if !is_valid_utf8(out.as_slice()) {
        return Err(ReportError::HistoryQueryFailed);
    }
    let lines = split_lines(out.as_slice());
    if lines.len() == 0 {
        let empty: Vec<u8> = Vec::new();
        return Ok(empty);
    }
    Ok(join_from(&lines, 1, 10))
}

/// Whether a changed-file listing line is kept: not blank, and not a
/// commit-header artifact.
pub open spec fn keeps_file_line(l: Seq<u8>) -> bool {
    trim_spec(l).len() > 0 && !"commit".spec_bytes().is_prefix_of(l)
}

/// The kept lines among `ls`, in order.
pub open spec fn files_filter_spec(ls: Seq<Seq<u8>>) -> Seq<Seq<u8>>
    decreases ls.len(),
{
    if ls.len() == 0 {
        Seq::<Seq<u8>>::empty()
    } else {
        let rest = files_filter_spec(ls.drop_first());
        if keeps_file_line(ls[0]) {
            seq![ls[0]] + rest
        } else {
            rest
        }
    }
}

pub proof fn lemma_files_filter_push(ls: Seq<Seq<u8>>, l: Seq<u8>)
    ensures
        files_filter_spec(ls.push(l)) =~= files_filter_spec(ls) + (if keeps_file_line(l) {
            seq![l]
        } else {
            Seq::<Seq<u8>>::empty()
        }),
    decreases ls.len(),
{
    let tail = if keeps_file_line(l) {
        seq![l]
    } else {
        Seq::<Seq<u8>>::empty()
    };
    if ls.len() == 0 {
        assert(ls.push(l)[0] == l);
        assert(ls.push(l).drop_first() =~= Seq::<Seq<u8>>::empty());
        assert(files_filter_spec(ls.push(l).drop_first()) == files_filter_spec(
            Seq::<Seq<u8>>::empty(),
        ));
        assert(files_filter_spec(ls.push(l)) =~= tail);
        assert(files_filter_spec(ls) =~= Seq::<Seq<u8>>::empty());
    } else {
        let d = ls.drop_first();
        assert(ls.push(l)[0] == ls[0]);
        assert(ls.push(l).drop_first() =~= d.push(l));
        assert(files_filter_spec(ls.push(l).drop_first()) == files_filter_spec(d.push(l)));
        lemma_files_filter_push(d, l);
        if keeps_file_line(ls[0]) {
            assert(files_filter_spec(ls.push(l)) == seq![ls[0]] + files_filter_spec(d.push(l)));
            assert(files_filter_spec(ls) == seq![ls[0]] + files_filter_spec(d));
            assert(seq![ls[0]] + (files_filter_spec(d) + tail) =~= (seq![ls[0]]
                + files_filter_spec(d)) + tail);
        } else {
            assert(files_filter_spec(ls.push(l)) == files_filter_spec(d.push(l)));
            assert(files_filter_spec(ls) == files_filter_spec(d));
        }
    }
}

/// The changed-file list carried by a name-only query output.
pub open spec fn files_spec(out: Seq<u8>) -> Seq<Seq<u8>> {
    files_filter_spec(lines_spec(out))
}

/// Extracts the changed-file list from a name-only query output.
pub fn extract_files(success: bool, out: &Vec<u8>) -> (r: Result<Vec<Vec<u8>>, ReportError>)
    ensures
        !success ==> r matches Err(ReportError::HistoryQueryFailed),
        success && !valid_utf8(out@) ==> r matches Err(ReportError::HistoryQueryFailed),
        success && valid_utf8(out@) ==> (r matches Ok(fs) && views(fs@) == files_spec(out@)),
{
    if !success {
        return Err(ReportError::HistoryQueryFailed);
    }
    if !is_valid_utf8(out.as_slice()) {
        return Err(ReportError::HistoryQueryFailed);
    }
    let lines = split_lines(out.as_slice());
    let ghost lviews = lines_spec(out@);
    let mut files: Vec<Vec<u8>> = Vec::new();
    let mut i: usize = 0;
    while i < lines.len()
        invariant
            0 <= i <= lines@.len(),
            views(lines@) == lviews,
            views(files@) =~= files_filter_spec(lviews.take(i as int)),
        decreases lines@.len() - i,
    {
        let ghost line = lviews[i as int];
        proof {
            assert(lviews.take(i + 1 as int) =~= lviews.take(i as int).push(line));
            lemma_files_filter_push(lviews.take(i as int), line);
            assert(views(lines@)[i as int] == lines@[i as int]@);
        }
        let keep = !is_blank(lines[i].as_slice()) && !starts_with(
            lines[i].as_slice(),
            "commit".as_bytes(),
        );
        if keep {
            let kept = lines[i].clone();
            proof {
                crate::bytes::lemma_views_push(files@, kept);
            }
            files.push(kept);
        }
        i = i + 1;
    }
    proof {
        assert(lviews.take(lviews.len() as int) =~= lviews);
    }
    Ok(files)
}

/// Assembles a commit from its listing record, extracted description and
/// changed files, reading the date field and falling back to `now` when it
/// does not parse.
pub fn build_commit(rec: LineRecord, body: Vec<u8>, files: Vec<Vec<u8>>, now: UtcTime) -> (c:
    Commit)
    requires
        now.wf(),
    ensures
        c.hash == rec.hash,
        c.author == rec.author,
        c.subject == rec.subject,
        c.body == body,
        c.files_changed == files,
        c.date == timestamp_spec(rec.date_raw@, now),
        c.wf(),
{
    let date = parse_timestamp(rec.date_raw.as_slice(), now);
    Commit {
        hash: rec.hash,
        author: rec.author,
        date,
        subject: rec.subject,
        body,
        files_changed: files,
    }
}

/// A well-formed listing line — four fields, none holding the delimiter —
/// parses back to exactly those fields: hash, author, date and subject
/// round-trip unchanged.
pub proof fn lemma_history_line_round_trip(h: Seq<u8>, a: Seq<u8>, d: Seq<u8>, s: Seq<u8>)
    requires
        forall|j: int| 0 <= j < h.len() ==> h[j] != 124,
        forall|j: int| 0 <= j < a.len() ==> a[j] != 124,
        forall|j: int| 0 <= j < d.len() ==> d[j] != 124,
        forall|j: int| 0 <= j < s.len() ==> s[j] != 124,
    ensures
        parse_line_spec(h + seq![124u8] + a + seq![124u8] + d + seq![124u8] + s) == Some(
            (h, a, d, s),
        ),
{
    let line = h + seq![124u8] + a + seq![124u8] + d + seq![124u8] + s;
    let t2 = d + seq![124u8] + s;
    let t1 = a + seq![124u8] + t2;
    assert(line =~= h + seq![124u8] + t1);
    lemma_split_all_cons(h, t1, 124);
    lemma_split_all_cons(a, t2, 124);
    lemma_split_all_cons(d, s, 124);
    lemma_split_all_no_sep(s, 124);
    let ps = split_all(line, 124);
    assert(ps == seq![h] + (seq![a] + (seq![d] + seq![s])));
    assert(ps.len() == 4);
    assert(ps[0] == h);
    assert(ps[1] == a);
    assert(ps[2] == d);
    assert(ps[3] == s);
}

proof fn lemma_split_pieces_no_byte(s: Seq<u8>, sep: u8, b: u8)
    requires
        forall|j: int| 0 <= j < s.len() ==> s[j] != b,
    ensures
        forall|k: int|
            0 <= k < split_all(s, sep).len() ==> !(#[trigger] split_all(s, sep)[k]).contains(b),
    decreases s.len(),
{
    if s.len() == 0 {
        assert forall|k: int|
            0 <= k < split_all(s, sep).len() implies !(#[trigger] split_all(s, sep)[k]).contains(
            b,
        ) by {
            assert(split_all(s, sep)[k] =~= Seq::<u8>::empty());
        }
    } else {
        let d = s.drop_first();
        assert(forall|j: int| 0 <= j < d.len() ==> d[j] == s[j + 1]);
        lemma_split_pieces_no_byte(d, sep, b);
        let rest = split_all(d, sep);
        lemma_split_all_len(d, sep);
        if s[0] == sep {
            assert forall|k: int|
                0 <= k < split_all(s, sep).len() implies !(#[trigger] split_all(
                s,
                sep,
            )[k]).contains(b) by {
                if k == 0 {
                    assert(split_all(s, sep)[0] =~= Seq::<u8>::empty());
                } else {
                    assert(split_all(s, sep)[k] == rest[k - 1]);
                }
            }
        } else {
            assert forall|k: int|
                0 <= k < split_all(s, sep).len() implies !(#[trigger] split_all(
                s,
                sep,
            )[k]).contains(b) by {
                if k == 0 {
                    let p0 = seq![s[0]] + rest[0];
                    assert(split_all(s, sep)[0] == p0);
                    assert(!rest[0].contains(b));
                    assert forall|j: int| 0 <= j < p0.len() implies p0[j] != b by {
                        if j > 0 {
                            assert(p0[j] == rest[0][j - 1]);
                        }
                    }
                } else {
                    assert(split_all(s, sep)[k] == rest.drop_first()[k - 1]);
                    assert(rest.drop_first()[k - 1] == rest[k]);
                }
            }
        }
    }
}

/// The extended description equals the full message with its first line
/// removed: for a single-line subject and a body free of carriage returns
/// and of a trailing newline, extraction gives the body back unchanged.
pub proof fn lemma_body_round_trip(subject: Seq<u8>, body: Seq<u8>)
    requires
        forall|j: int| 0 <= j < subject.len() ==> subject[j] != 10,
        forall|j: int| 0 <= j < body.len() ==> body[j] != 13,
        body.len() == 0 || body[body.len() - 1] != 10,
    ensures
        body_spec(subject + seq![10u8] + body) == body,
{
    let m = subject + seq![10u8] + body;
    assert(m.len() > 0);
    if body.len() == 0 {
        assert(m.last() == 10);
        lemma_split_all_cons(subject, Seq::<u8>::empty(), 10);
        assert(m =~= subject + seq![10u8] + Seq::<u8>::empty());
        let ps = split_all(m, 10);
        assert(ps == seq![subject] + split_all(Seq::<u8>::empty(), 10));
        assert(ps.len() == 2);
        let parts = ps.drop_last();
        let ls = lines_spec(m);
        assert(ls == parts.map_values(|l: Seq<u8>| crate::bytes::strip_cr(l)));
        assert(ls.len() == 1);
        assert(ls.skip(1) =~= Seq::<Seq<u8>>::empty());
        assert(body_spec(m) == join_spec(ls.skip(1), 10));
    } else {
        assert(m.last() == body[body.len() - 1]);
        assert(m.last() != 10);
        lemma_split_all_cons(subject, body, 10);
        let r = split_all(body, 10);
        lemma_split_all_len(body, 10);
        let ps = split_all(m, 10);
        assert(ps == seq![subject] + r);
        let ls = lines_spec(m);
        assert(ls == ps.map_values(|l: Seq<u8>| crate::bytes::strip_cr(l)));
        lemma_split_pieces_no_byte(body, 10, 13);
        assert(ls.skip(1) =~= r) by {
            assert(ls.len() == ps.len());
            assert forall|k: int| 0 <= k < r.len() implies ls.skip(1)[k] == r[k] by {
                assert(ls.skip(1)[k] == ls[k + 1]);
                assert(ls[k + 1] == crate::bytes::strip_cr(ps[k + 1]));
                assert(ps[k + 1] == r[k]);
                assert(!r[k].contains(13u8));
                if r[k].len() > 0 {
                    assert(r[k].last() != 13);
                }
            }
        }
        lemma_join_split(body, 10);
        assert(body_spec(m) == join_spec(ls.skip(1), 10));
        assert(join_spec(ls.skip(1), 10) == join_spec(r, 10));
    }
}

/// Interprets the output of the repository top-level query: a failed query
/// means the directory is no repository; the path is the output trimmed.
pub fn interpret_toplevel(success: bool, out: &Vec<u8>) -> (r: Result<Vec<u8>, ReportError>)
    ensures
        !success ==> r matches Err(ReportError::NotARepository),
        success && !valid_utf8(out@) ==> r matches Err(ReportError::HistoryQueryFailed),
        success && valid_utf8(out@) ==> (r matches Ok(p) && p@ == trim_spec(out@)),
{
    if !success {
        return Err(ReportError::NotARepository);
    }
    if !is_valid_utf8(out.as_slice()) {
        return Err(ReportError::HistoryQueryFailed);
    }
    Ok(trim_bytes(out.as_slice()))
}

} // verus!
