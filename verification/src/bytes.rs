//! Byte-sequence building blocks: appending text, decimal rendering.

use vstd::prelude::*;
use vstd::string::*;

verus! {

/// The decimal digits of `n`, most significant first, as ASCII bytes.
pub open spec fn dec_spec(n: nat) -> Seq<u8>
    decreases n,
{
    if n < 10 {
        seq![(48 + n) as u8]
    } else {
        dec_spec(n / 10) + seq![(48 + n % 10) as u8]
    }
}

/// `n` rendered in decimal, zero-padded on the left to at least two digits.
pub open spec fn pad2_spec(n: nat) -> Seq<u8> {
    if n < 10 {
        seq![48u8] + dec_spec(n)
    } else {
        dec_spec(n)
    }
}

/// `n` rendered in decimal, zero-padded on the left to at least four digits.
pub open spec fn pad4_spec(n: nat) -> Seq<u8> {
    if n < 10 {
        seq![48u8, 48u8, 48u8] + dec_spec(n)
    } else if n < 100 {
        seq![48u8, 48u8] + dec_spec(n)
    } else if n < 1000 {
        seq![48u8] + dec_spec(n)
    } else {
        dec_spec(n)
    }
}

/// Appends a byte slice to `out`.
pub fn push_bytes(out: &mut Vec<u8>, s: &[u8])
    ensures
        final(out)@ == old(out)@ + s@,
{
    out.extend_from_slice(s);
}

/// Appends the UTF-8 bytes of a string slice to `out`.
pub fn push_str(out: &mut Vec<u8>, s: &str)
    ensures
        final(out)@ == old(out)@ + s.spec_bytes(),
{
    push_bytes(out, s.as_bytes());
}

/// Appends the decimal rendering of `n` to `out`.
pub fn push_dec_u64(out: &mut Vec<u8>, n: u64)
    ensures
        final(out)@ == old(out)@ + dec_spec(n as nat),
    decreases n,
{
    if n < 10 {
        out.push(48 + (n as u8));
    } else {
        push_dec_u64(out, n / 10);
        out.push(48 + ((n % 10) as u8));
    }
}

/// Appends the two-digit zero-padded rendering of `n` to `out`.
pub fn push_pad2(out: &mut Vec<u8>, n: u8)
    requires
        n < 100,
    ensures
        final(out)@ == old(out)@ + pad2_spec(n as nat),
{
    if n < 10 {
        out.push(48);
    }
    push_dec_u64(out, n as u64);
}

/// Appends the four-digit zero-padded rendering of `n` to `out`.
pub fn push_pad4(out: &mut Vec<u8>, n: u16)
    requires
        n < 10000,
    ensures
        final(out)@ == old(out)@ + pad4_spec(n as nat),
{
    if n < 10 {
        out.push(48);
        out.push(48);
        out.push(48);
    } else if n < 100 {
        out.push(48);
        out.push(48);
    } else if n < 1000 {
        out.push(48);
    }
    push_dec_u64(out, n as u64);
}

/// The views of a sequence of byte vectors.
pub open spec fn views(vs: Seq<Vec<u8>>) -> Seq<Seq<u8>> {
    vs.map_values(|v: Vec<u8>| v@)
}

pub proof fn lemma_views_push(vs: Seq<Vec<u8>>, v: Vec<u8>)
    ensures
        views(vs.push(v)) =~= views(vs).push(v@),
{
}

/// `s` split at every occurrence of `sep`; empty pieces are kept, so the
/// result always holds one piece more than `s` holds separators.
pub open spec fn split_all(s: Seq<u8>, sep: u8) -> Seq<Seq<u8>>
    decreases s.len(),
{
    if s.len() == 0 {
        seq![Seq::<u8>::empty()]
    } else if s[0] == sep {
        seq![Seq::<u8>::empty()] + split_all(s.drop_first(), sep)
    } else {
        let rest = split_all(s.drop_first(), sep);
        seq![seq![s[0]] + rest[0]] + rest.drop_first()
    }
}

pub proof fn lemma_split_all_len(s: Seq<u8>, sep: u8)
    ensures
        split_all(s, sep).len() >= 1,
    decreases s.len(),
{
    if s.len() > 0 {
        lemma_split_all_len(s.drop_first(), sep);
    }
}

/// Splits `s` at every occurrence of `sep`.
pub fn split_bytes(s: &[u8], sep: u8) -> (r: Vec<Vec<u8>>)
    ensures
        views(r@) == split_all(s@, sep),
{
    let mut pieces: Vec<Vec<u8>> = Vec::new();
    let mut cur: Vec<u8> = Vec::new();
    let mut i: usize = 0;
    proof {
        lemma_split_all_len(s@, sep);
        assert(s@.skip(0) =~= s@);
        assert(views(pieces@) =~= Seq::<Seq<u8>>::empty());
        assert(cur@ + split_all(s@, sep)[0] =~= split_all(s@, sep)[0]);
        assert(split_all(s@, sep) =~= seq![split_all(s@, sep)[0]] + split_all(
            s@,
            sep,
        ).drop_first());
    }
    while i < s.len()
        invariant
            0 <= i <= s@.len(),
            split_all(s@.skip(i as int), sep).len() >= 1,
            split_all(s@, sep) =~= views(pieces@) + seq![
                cur@ + split_all(s@.skip(i as int), sep)[0],
            ] + split_all(s@.skip(i as int), sep).drop_first(),
        decreases s@.len() - i,
    {
        let ghost tail = s@.skip(i as int);
        let ghost tail2 = s@.skip(i as int + 1);
        proof {
            assert(tail.len() > 0);
            assert(tail[0] == s@[i as int]);
            assert(tail.drop_first() =~= tail2);
            lemma_split_all_len(tail2, sep);
        }
        let b = s[i];
        if b == sep {
            proof {
                assert(split_all(tail, sep) =~= seq![Seq::<u8>::empty()] + split_all(tail2, sep));
                lemma_views_push(pieces@, cur);
            }
            pieces.push(cur);
            cur = Vec::new();
            proof {
                assert(split_all(tail, sep).drop_first() =~= split_all(tail2, sep));
                assert(split_all(tail2, sep) =~= seq![split_all(tail2, sep)[0]] + split_all(
                    tail2,
                    sep,
                ).drop_first());
            }
        } else {
            proof {
                let rest = split_all(tail2, sep);
                assert(split_all(tail, sep) =~= seq![seq![tail[0]] + rest[0]] + rest.drop_first());
                assert((cur@ + split_all(tail, sep)[0]) =~= (cur@.push(b) + rest[0]));
            }
            cur.push(b);
        }
        i = i + 1;
    }
    proof {
        assert(s@.skip(i as int) =~= Seq::<u8>::empty());
        assert(split_all(s@.skip(i as int), sep) =~= seq![Seq::<u8>::empty()]);
        assert(cur@ + Seq::<u8>::empty() =~= cur@);
        lemma_views_push(pieces@, cur);
    }
    pieces.push(cur);
    proof {
        assert(views(pieces@) =~= split_all(s@, sep));
    }
    pieces
}

/// Copies `s[i..j]` into a fresh vector.
pub fn sub_bytes(s: &[u8], i: usize, j: usize) -> (r: Vec<u8>)
    requires
        i <= j <= s@.len(),
    ensures
        r@ == s@.subrange(i as int, j as int),
{
    let part = vstd::slice::slice_subrange(s, i, j);
    vstd::slice::slice_to_vec(part)
}

/// `l` with a single trailing carriage return removed, if one is there.
pub open spec fn strip_cr(l: Seq<u8>) -> Seq<u8> {
    if l.len() > 0 && l.last() == 13 {
        l.drop_last()
    } else {
        l
    }
}

/// The lines of `s`: pieces between newline bytes, a trailing empty piece
/// dropped when `s` ends in a newline, and a trailing carriage return
/// stripped from every line.
pub open spec fn lines_spec(s: Seq<u8>) -> Seq<Seq<u8>> {
    if s.len() == 0 {
        Seq::<Seq<u8>>::empty()
    } else {
        let parts = if s.last() == 10 {
            split_all(s, 10).drop_last()
        } else {
            split_all(s, 10)
        };
        parts.map_values(|l: Seq<u8>| strip_cr(l))
    }
}

/// `l` with a trailing carriage return removed.
pub fn strip_cr_bytes(v: &[u8]) -> (r: Vec<u8>)
    ensures
        r@ == strip_cr(v@),
{
    if v.len() > 0 && v[v.len() - 1] == 13 {
        let r = sub_bytes(v, 0, v.len() - 1);
        proof {
            assert(r@ =~= v@.drop_last());
        }
        r
    } else {
        vstd::slice::slice_to_vec(v)
    }
}

/// Splits `s` into lines as [`lines_spec`] describes.
pub fn split_lines(s: &[u8]) -> (r: Vec<Vec<u8>>)
    ensures
        views(r@) == lines_spec(s@),
{
    if s.len() == 0 {
        let r: Vec<Vec<u8>> = Vec::new();
        proof {
            assert(views(r@) =~= lines_spec(s@));
        }
        return r;
    }
    let mut pieces = split_bytes(s, 10);
    proof {
        lemma_split_all_len(s@, 10);
    }
    if s[s.len() - 1] == 10 {
        pieces.pop();
    }
    let ghost parts = if s@.last() == 10 {
        split_all(s@, 10).drop_last()
    } else {
        split_all(s@, 10)
    };
    proof {
        assert(views(pieces@) =~= parts);
    }
    let mut out: Vec<Vec<u8>> = Vec::new();
    let mut i: usize = 0;
    while i < pieces.len()
        invariant
            0 <= i <= pieces@.len(),
            views(pieces@) == parts,
            views(out@) =~= parts.map_values(|l: Seq<u8>| strip_cr(l)).take(i as int),
        decreases pieces@.len() - i,
    {
        let stripped = strip_cr_bytes(pieces[i].as_slice());
        proof {
            lemma_views_push(out@, stripped);
            assert(parts[i as int] == views(pieces@)[i as int]);
            assert(parts.map_values(|l: Seq<u8>| strip_cr(l)).take(i + 1 as int) =~= parts
                .map_values(|l: Seq<u8>| strip_cr(l))
                .take(i as int)
                .push(strip_cr(parts[i as int])));
        }
        out.push(stripped);
        i = i + 1;
    }
    proof {
        assert(views(out@) =~= lines_spec(s@));
    }
    out
}

/// The pieces of `ls` glued together with `sep` between neighbours.
pub open spec fn join_spec(ls: Seq<Seq<u8>>, sep: u8) -> Seq<u8>
    decreases ls.len(),
{
    if ls.len() == 0 {
        Seq::<u8>::empty()
    } else if ls.len() == 1 {
        ls[0]
    } else {
        ls[0] + seq![sep] + join_spec(ls.drop_first(), sep)
    }
}

pub proof fn lemma_join_push(ls: Seq<Seq<u8>>, x: Seq<u8>, sep: u8)
    ensures
        join_spec(ls.push(x), sep) == if ls.len() == 0 {
            x
        } else {
            join_spec(ls, sep) + seq![sep] + x
        },
    decreases ls.len(),
{
    if ls.len() == 0 {
        assert(ls.push(x).len() == 1);
        assert(join_spec(ls.push(x), sep) == ls.push(x)[0]);
        assert(ls.push(x)[0] == x);
    } else {
        lemma_join_push(ls.drop_first(), x, sep);
        assert(ls.push(x).drop_first() =~= ls.drop_first().push(x));
        if ls.len() == 1 {
            assert(join_spec(ls.push(x), sep) == ls[0] + seq![sep] + join_spec(
                ls.drop_first().push(x),
                sep,
            ));
            assert(ls.drop_first().len() == 0);
            assert(join_spec(ls, sep) == ls[0]);
        } else {
            assert(join_spec(ls, sep) + seq![sep] + x =~= ls[0] + seq![sep] + (join_spec(
                ls.drop_first(),
                sep,
            ) + seq![sep] + x));
        }
    }
}

/// Glues the pieces of `ls` from index `start` on together with `sep`.
pub fn join_from(ls: &Vec<Vec<u8>>, start: usize, sep: u8) -> (r: Vec<u8>)
    requires
        start <= ls@.len(),
    ensures
        r@ == join_spec(views(ls@).skip(start as int), sep),
{
    let mut out: Vec<u8> = Vec::new();
    let mut i: usize = start;
    while i < ls.len()
        invariant
            start <= i <= ls@.len(),
            out@ == join_spec(views(ls@).subrange(start as int, i as int), sep),
        decreases ls@.len() - i,
    {
        let ghost pre = views(ls@).subrange(start as int, i as int);
        proof {
            assert(views(ls@).subrange(start as int, i + 1 as int) =~= pre.push(
                views(ls@)[i as int],
            ));
            lemma_join_push(pre, views(ls@)[i as int], sep);
        }
        if i > start {
            out.push(sep);
        }
        push_bytes(&mut out, ls[i].as_slice());
        i = i + 1;
    }
    proof {
        assert(views(ls@).subrange(start as int, ls@.len() as int) =~= views(ls@).skip(
            start as int,
        ));
    }
    out
}

/// ASCII whitespace, the bytes that blank-line and edge trimming remove.
pub open spec fn is_ws(b: u8) -> bool {
    b == 32 || b == 9 || b == 10 || b == 13 || b == 11 || b == 12
}

pub open spec fn trim_start_spec(s: Seq<u8>) -> Seq<u8>
    decreases s.len(),
{
    if s.len() > 0 && is_ws(s[0]) {
        trim_start_spec(s.drop_first())
    } else {
        s
    }
}

pub open spec fn trim_end_spec(s: Seq<u8>) -> Seq<u8>
    decreases s.len(),
{
    if s.len() > 0 && is_ws(s.last()) {
        trim_end_spec(s.drop_last())
    } else {
        s
    }
}

/// `s` with whitespace removed from both ends.
pub open spec fn trim_spec(s: Seq<u8>) -> Seq<u8> {
    trim_end_spec(trim_start_spec(s))
}

proof fn lemma_trim_start_skip(s: Seq<u8>, i: int)
    requires
        0 <= i <= s.len(),
        forall|j: int| 0 <= j < i ==> is_ws(s[j]),
    ensures
        trim_start_spec(s) == trim_start_spec(s.skip(i)),
    decreases i,
{
    if i > 0 {
        assert(is_ws(s[0]));
        assert(s.drop_first() =~= s.skip(1));
        lemma_trim_start_skip(s.skip(1), i - 1);
        assert(s.skip(1).skip(i - 1) =~= s.skip(i));
    } else {
        assert(s.skip(0) =~= s);
    }
}

proof fn lemma_trim_start_clean(s: Seq<u8>)
    requires
        s.len() == 0 || !is_ws(s[0]),
    ensures
        trim_start_spec(s) == s,
{
}

proof fn lemma_trim_end_take(s: Seq<u8>, i: int)
    requires
        0 <= i <= s.len(),
        forall|j: int| i <= j < s.len() ==> is_ws(s[j]),
    ensures
        trim_end_spec(s) == trim_end_spec(s.take(i)),
    decreases s.len() - i,
{
    if i < s.len() {
        assert(is_ws(s.last()));
        assert(s.drop_last() =~= s.take(s.len() - 1));
        lemma_trim_end_take(s.take(s.len() - 1), i);
        assert(s.take(s.len() - 1).take(i) =~= s.take(i));
    } else {
        assert(s.take(i) =~= s);
    }
}

proof fn lemma_trim_end_clean(s: Seq<u8>)
    requires
        s.len() == 0 || !is_ws(s.last()),
    ensures
        trim_end_spec(s) == s,
{
}

/// `s` with leading and trailing whitespace removed.
pub fn trim_bytes(s: &[u8]) -> (r: Vec<u8>)
    ensures
        r@ == trim_spec(s@),
{
    let mut a: usize = 0;
    while a < s.len() && is_ws_byte(s[a])
        invariant
            0 <= a <= s@.len(),
            forall|j: int| 0 <= j < a ==> is_ws(s@[j]),
        decreases s@.len() - a,
    {
        a = a + 1;
    }
    proof {
        lemma_trim_start_skip(s@, a as int);
    }
    if a == s.len() {
        proof {
            assert(s@.skip(a as int) =~= Seq::<u8>::empty());
        }
        let r: Vec<u8> = Vec::new();
        proof {
            assert(r@ =~= trim_spec(s@));
        }
        return r;
    }
    proof {
        assert(s@.skip(a as int)[0] == s@[a as int]);
        lemma_trim_start_clean(s@.skip(a as int));
    }
    let mut b: usize = s.len();
    while b > a + 1 && is_ws_byte(s[b - 1])
        invariant
            a < b <= s@.len(),
            forall|j: int| b <= j < s@.len() ==> is_ws(s@[j]),
        decreases b,
    {
        b = b - 1;
    }
    let ghost t = s@.skip(a as int);
    proof {
        assert(forall|j: int| (b - a) <= j < t.len() ==> is_ws(t[j]));
        lemma_trim_end_take(t, b - a);
        assert(t.take(b - a) =~= s@.subrange(a as int, b as int));
        assert(s@.subrange(a as int, b as int).len() > 0);
        assert(s@.subrange(a as int, b as int).last() == s@[b - 1]);
        lemma_trim_end_clean(s@.subrange(a as int, b as int));
    }
    sub_bytes(s, a, b)
}

/// Exec test for [`is_ws`].
pub fn is_ws_byte(b: u8) -> (r: bool)
    ensures
        r == is_ws(b),
{
    b == 32 || b == 9 || b == 10 || b == 13 || b == 11 || b == 12
}

proof fn lemma_trim_start_empty_iff(s: Seq<u8>)
    ensures
        trim_start_spec(s).len() == 0 <==> (forall|j: int| 0 <= j < s.len() ==> is_ws(s[j])),
    decreases s.len(),
{
    if s.len() > 0 && is_ws(s[0]) {
        let d = s.drop_first();
        lemma_trim_start_empty_iff(d);
        if trim_start_spec(s).len() == 0 {
            assert forall|j: int| 0 <= j < s.len() implies is_ws(s[j]) by {
                if j > 0 {
                    assert(d[j - 1] == s[j]);
                }
            }
        } else {
            let k = choose|k: int| 0 <= k < d.len() && !is_ws(d[k]);
            assert(s[k + 1] == d[k]);
        }
    }
}

proof fn lemma_trim_start_head(s: Seq<u8>)
    ensures
        trim_start_spec(s).len() > 0 ==> !is_ws(trim_start_spec(s)[0]),
    decreases s.len(),
{
    if s.len() > 0 && is_ws(s[0]) {
        lemma_trim_start_head(s.drop_first());
    }
}

pub proof fn lemma_trim_empty_iff_all_ws(s: Seq<u8>)
    ensures
        trim_spec(s).len() == 0 <==> (forall|j: int| 0 <= j < s.len() ==> is_ws(s[j])),
{
    lemma_trim_start_empty_iff(s);
    if trim_start_spec(s).len() == 0 {
        assert(trim_spec(s).len() == 0);
    } else {
        lemma_trim_start_head(s);
        lemma_trim_end_keeps_head(trim_start_spec(s));
    }
}

proof fn lemma_trim_end_keeps_head(s: Seq<u8>)
    requires
        s.len() > 0,
        !is_ws(s[0]),
    ensures
        trim_end_spec(s).len() > 0,
        trim_end_spec(s)[0] == s[0],
    decreases s.len(),
{
    if is_ws(s.last()) {
        assert(s.len() > 1);
        lemma_trim_end_keeps_head(s.drop_last());
    }
}

/// Whether `s` is nothing but whitespace, that is, trims to nothing.
pub fn is_blank(s: &[u8]) -> (r: bool)
    ensures
        r == (trim_spec(s@).len() == 0),
{
    let mut i: usize = 0;
    while i < s.len()
        invariant
            0 <= i <= s@.len(),
            forall|j: int| 0 <= j < i ==> is_ws(s@[j]),
        decreases s@.len() - i,
    {
        if !is_ws_byte(s[i]) {
            proof {
                lemma_trim_empty_iff_all_ws(s@);
            }
            return false;
        }
        i = i + 1;
    }
    proof {
        lemma_trim_empty_iff_all_ws(s@);
    }
    true
}

/// Whether `p` is a prefix of `s`.
pub fn starts_with(s: &[u8], p: &[u8]) -> (r: bool)
    ensures
        r == p@.is_prefix_of(s@),
{
    if p.len() > s.len() {
        assert(!p@.is_prefix_of(s@));
        return false;
    }
    let mut i: usize = 0;
    while i < p.len()
        invariant
            0 <= i <= p@.len() <= s@.len(),
            forall|j: int| 0 <= j < i ==> p@[j] == s@[j],
        decreases p@.len() - i,
    {
        if p[i] != s[i] {
            assert(!p@.is_prefix_of(s@));
            return false;
        }
        i = i + 1;
    }
    proof {
        assert(p@ =~= s@.subrange(0, p@.len() as int));
    }
    true
}

pub proof fn lemma_split_all_no_sep(s: Seq<u8>, sep: u8)
    requires
        forall|j: int| 0 <= j < s.len() ==> s[j] != sep,
    ensures
        split_all(s, sep) =~= seq![s],
    decreases s.len(),
{
    if s.len() == 0 {
        assert(s =~= Seq::<u8>::empty());
    } else {
        assert(s[0] != sep);
        lemma_split_all_no_sep(s.drop_first(), sep);
        let rest = split_all(s.drop_first(), sep);
        assert(rest == seq![s.drop_first()]);
        assert(rest[0] == s.drop_first());
        assert(seq![s[0]] + rest[0] =~= s);
        assert(rest.drop_first() =~= Seq::<Seq<u8>>::empty());
        assert(split_all(s, sep) =~= seq![seq![s[0]] + rest[0]] + rest.drop_first());
        assert(seq![seq![s[0]] + rest[0]] + rest.drop_first() =~= seq![s]);
    }
}

pub proof fn lemma_split_all_cons(x: Seq<u8>, y: Seq<u8>, sep: u8)
    requires
        forall|j: int| 0 <= j < x.len() ==> x[j] != sep,
    ensures
        split_all(x + seq![sep] + y, sep) =~= seq![x] + split_all(y, sep),
    decreases x.len(),
{
    let s = x + seq![sep] + y;
    if x.len() == 0 {
        assert(s[0] == sep);
        assert(s.drop_first() =~= y);
        assert(split_all(s, sep) =~= seq![Seq::<u8>::empty()] + split_all(y, sep));
        assert(x =~= Seq::<u8>::empty());
        assert(seq![Seq::<u8>::empty()] + split_all(y, sep) =~= seq![x] + split_all(y, sep));
    } else {
        assert(s[0] == x[0]);
        assert(s[0] != sep);
        lemma_split_all_cons(x.drop_first(), y, sep);
        assert(s.drop_first() =~= x.drop_first() + seq![sep] + y);
        lemma_split_all_len(y, sep);
        let rest = split_all(s.drop_first(), sep);
        assert(rest =~= seq![x.drop_first()] + split_all(y, sep));
        assert(rest[0] == x.drop_first());
        assert(seq![s[0]] + rest[0] =~= x);
        assert(rest.drop_first() =~= split_all(y, sep));
        assert(split_all(s, sep) =~= seq![seq![s[0]] + rest[0]] + rest.drop_first());
        assert(seq![seq![s[0]] + rest[0]] + rest.drop_first() =~= seq![x] + split_all(y, sep));
    }
}

pub proof fn lemma_join_split(s: Seq<u8>, sep: u8)
    ensures
        join_spec(split_all(s, sep), sep) =~= s,
    decreases s.len(),
{
    lemma_split_all_len(s, sep);
    if s.len() == 0 {
    } else if s[0] == sep {
        lemma_join_split(s.drop_first(), sep);
        lemma_split_all_len(s.drop_first(), sep);
        let parts = seq![Seq::<u8>::empty()] + split_all(s.drop_first(), sep);
        assert(parts.drop_first() =~= split_all(s.drop_first(), sep));
        assert(join_spec(parts, sep) == parts[0] + seq![sep] + join_spec(
            parts.drop_first(),
            sep,
        ));
        assert(Seq::<u8>::empty() + seq![sep] + s.drop_first() =~= s);
    } else {
        lemma_join_split(s.drop_first(), sep);
        let r = split_all(s.drop_first(), sep);
        let parts = seq![seq![s[0]] + r[0]] + r.drop_first();
        if r.len() == 1 {
            assert(parts.len() == 1);
            assert(join_spec(parts, sep) == parts[0]);
            assert(join_spec(r, sep) == r[0]);
            assert(seq![s[0]] + r[0] =~= s);
        } else {
            assert(parts.len() > 1);
            assert(parts.drop_first() =~= r.drop_first());
            assert(join_spec(parts, sep) == (seq![s[0]] + r[0]) + seq![sep] + join_spec(
                r.drop_first(),
                sep,
            ));
            assert(join_spec(r, sep) == r[0] + seq![sep] + join_spec(r.drop_first(), sep));
            assert((seq![s[0]] + r[0]) + seq![sep] + join_spec(r.drop_first(), sep) =~= seq![
                s[0],
            ] + (r[0] + seq![sep] + join_spec(r.drop_first(), sep)));
            assert(seq![s[0]] + s.drop_first() =~= s);
        }
    }
}

} // verus!
