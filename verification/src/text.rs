//! Byte-level text utilities: decimal numbers, splitting, trimming.
//!
//! SDP is a line-oriented ASCII protocol; the parser and serializer work on
//! byte sequences, and these helpers carry exact specifications so that the
//! round-trip argument can be made at the level of `Seq<u8>`.

use vstd::prelude::*;

verus! {

pub open spec fn is_digit(b: u8) -> bool {
    0x30 <= b <= 0x39
}

/// Whitespace stripped from the ends of a line (space, tab, carriage return).
pub open spec fn is_space(b: u8) -> bool {
    b == 0x20 || b == 0x09 || b == 0x0d
}

pub open spec fn all_digits(s: Seq<u8>) -> bool {
    forall|i: int| 0 <= i < s.len() ==> is_digit(#[trigger] s[i])
}

/// The value of a decimal digit string (most significant digit first).
pub open spec fn dec_val(s: Seq<u8>) -> nat
    decreases s.len(),
{
    if s.len() == 0 {
        0
    } else {
        dec_val(s.drop_last()) * 10 + (s.last() - 0x30) as nat
    }
}

pub open spec fn pow10(n: nat) -> nat
    decreases n,
{
    if n == 0 {
        1
    } else {
        10 * pow10((n - 1) as nat)
    }
}

pub proof fn lemma_pow10_pos(n: nat)
    ensures
        pow10(n) >= 1,
    decreases n,
{
    if n > 0 {
        lemma_pow10_pos((n - 1) as nat);
    }
}

/// Splitting the digit string `a + b` at the seam: the value of the whole is
/// the value of `a` shifted past `b` plus the value of `b`.
pub proof fn lemma_dec_val_append(a: Seq<u8>, b: Seq<u8>)
    ensures
        dec_val(a + b) == dec_val(a) * pow10(b.len()) + dec_val(b),
    decreases b.len(),
{
    if b.len() == 0 {
        assert(a + b =~= a);
        assert(pow10(b.len()) == 1);
        assert(dec_val(b) == 0);
        assert(dec_val(a + b) == dec_val(a) * pow10(b.len()) + dec_val(b));
    } else {
        let b0 = b.drop_last();
        let d = (b.last() - 0x30) as nat;
        let x = dec_val(a);
        let y = dec_val(b0);
        let p0 = pow10(b0.len());
        lemma_dec_val_append(a, b0);
        assert((a + b).drop_last() =~= a + b0);
        assert((a + b).last() == b.last());
        assert(dec_val(a + b) == dec_val(a + b0) * 10 + d);
        assert(dec_val(b) == y * 10 + d);
        assert(pow10(b.len()) == 10 * p0);
        assert((x * p0 + y) * 10 + d == x * (10 * p0) + (y * 10 + d)) by (nonlinear_arith);
        assert(dec_val(a + b) == x * (10 * p0) + dec_val(b));
        assert(x * pow10(b.len()) == x * (10 * p0)) by (nonlinear_arith)
            requires
                pow10(b.len()) == 10 * p0,
        ;
        assert(dec_val(a + b) == dec_val(a) * pow10(b.len()) + dec_val(b));
    }
}

/// A prefix of a digit string never exceeds the value of the whole.
pub proof fn lemma_dec_val_prefix(s: Seq<u8>, i: int)
    requires
        0 <= i <= s.len(),
    ensures
        dec_val(s) >= dec_val(s.subrange(0, i)),
{
    let a = s.subrange(0, i);
    let b = s.subrange(i, s.len() as int);
    assert(s =~= a + b);
    lemma_dec_val_append(a, b);
    lemma_pow10_pos(b.len());
    assert(dec_val(a) * pow10(b.len()) >= dec_val(a) * 1) by (nonlinear_arith)
        requires pow10(b.len()) >= 1,
    ;
}

/// Parses a decimal `u64`; succeeds exactly on non-empty all-digit strings
/// whose value fits.
pub fn parse_u64(s: &[u8]) -> (r: Option<u64>)
    ensures
        r is Some <==> (s@.len() > 0 && all_digits(s@) && dec_val(s@) <= u64::MAX),
        r is Some ==> r->0 == dec_val(s@),
{
    if s.len() == 0 {
        return None;
    }
    let mut acc: u64 = 0;
    let mut i: usize = 0;
    while i < s.len()
        invariant
            0 <= i <= s@.len(),
            all_digits(s@.subrange(0, i as int)),
            acc == dec_val(s@.subrange(0, i as int)),
        decreases s@.len() - i,
    {
        let b = s[i];
        if b < 0x30 || b > 0x39 {
            assert(!is_digit(s@[i as int]));
            return None;
        }
        let d: u64 = (b - 0x30) as u64;
        let pfx = Ghost(s@.subrange(0, i as int));
        let pfx1 = Ghost(s@.subrange(0, i as int + 1));
        proof {
            assert(pfx1@ =~= pfx@ + seq![s@[i as int]]);
            assert(pfx1@.drop_last() =~= pfx@);
            assert(dec_val(pfx1@) == acc * 10 + d);
        }
        if acc > (u64::MAX - d) / 10 {
            proof {
                // acc * 10 + d overflows, so the value of the whole string,
                // if it is all digits, exceeds u64::MAX.
                assert(acc * 10 + d > u64::MAX) by (nonlinear_arith)
                    requires acc > (u64::MAX - d as u64) / 10, d <= 9,
                ;
                if all_digits(s@) && dec_val(s@) <= u64::MAX {
                    lemma_dec_val_prefix(s@, i as int + 1);
                }
            }
            return None;
        }
        proof {
            assert(acc * 10 + d <= u64::MAX) by (nonlinear_arith)
                requires acc <= (u64::MAX - d as u64) / 10, d <= 9,
            ;
        }
        acc = acc * 10 + d;
        i = i + 1;
    }
    proof {
        assert(s@.subrange(0, i as int) =~= s@);
    }
    Some(acc)
}

pub fn parse_u32(s: &[u8]) -> (r: Option<u32>)
    ensures
        r is Some <==> (s@.len() > 0 && all_digits(s@) && dec_val(s@) <= u32::MAX),
        r is Some ==> r->0 == dec_val(s@),
{
    match parse_u64(s) {
        Some(v) => {
            if v <= 0xffff_ffffu64 {
                Some(v as u32)
            } else {
                None
            }
        },
        None => {
            proof {
                if s@.len() > 0 && all_digits(s@) && dec_val(s@) <= u32::MAX {
                    assert(dec_val(s@) <= u64::MAX);
                }
            }
            None
        },
    }
}

pub fn parse_u16(s: &[u8]) -> (r: Option<u16>)
    ensures
        r is Some <==> (s@.len() > 0 && all_digits(s@) && dec_val(s@) <= u16::MAX),
        r is Some ==> r->0 == dec_val(s@),
{
    match parse_u32(s) {
        Some(v) => if v <= 0xffffu32 { Some(v as u16) } else { None },
        None => None,
    }
}

pub fn parse_u8(s: &[u8]) -> (r: Option<u8>)
    ensures
        r is Some <==> (s@.len() > 0 && all_digits(s@) && dec_val(s@) <= u8::MAX),
        r is Some ==> r->0 == dec_val(s@),
{
    match parse_u16(s) {
        Some(v) => if v <= 0xffu16 { Some(v as u8) } else { None },
        None => None,
    }
}

/// A token that parses as a decimal number within the given bound.
pub open spec fn is_dec(s: Seq<u8>, max: nat) -> bool {
    s.len() > 0 && all_digits(s) && dec_val(s) <= max
}

/// The canonical decimal form of a number: no leading zeros.
pub open spec fn spec_fmt_nat(v: nat) -> Seq<u8>
    decreases v,
{
    if v < 10 {
        seq![(0x30 + v) as u8]
    } else {
        spec_fmt_nat(v / 10) + seq![(0x30 + v % 10) as u8]
    }
}

pub proof fn lemma_fmt_nat(v: nat)
    ensures
        spec_fmt_nat(v).len() >= 1,
        all_digits(spec_fmt_nat(v)),
        dec_val(spec_fmt_nat(v)) == v,
    decreases v,
{
    if v < 10 {
        let s = spec_fmt_nat(v);
        assert(s =~= seq![(0x30 + v) as u8]);
        assert(s.drop_last() =~= Seq::<u8>::empty());
        assert(s.last() == (0x30 + v) as u8);
        assert(dec_val(s) == dec_val(Seq::<u8>::empty()) * 10 + v);
    } else {
        lemma_fmt_nat(v / 10);
        let a = spec_fmt_nat(v / 10);
        let s = spec_fmt_nat(v);
        assert(s.drop_last() =~= a);
        assert(dec_val(s) == dec_val(a) * 10 + v % 10);
        assert((v / 10) * 10 + v % 10 == v) by (nonlinear_arith);
    }
}

pub fn fmt_u64(v: u64) -> (r: Vec<u8>)
    ensures
        r@ == spec_fmt_nat(v as nat),
    decreases v,
{
    if v < 10 {
        let mut r: Vec<u8> = Vec::new();
        r.push(0x30 + v as u8);
        proof {
            assert(r@ =~= spec_fmt_nat(v as nat));
        }
        r
    } else {
        let mut r = fmt_u64(v / 10);
        r.push(0x30 + (v % 10) as u8);
        proof {
            assert(r@ =~= spec_fmt_nat(v as nat));
        }
        r
    }
}

pub fn fmt_u32(v: u32) -> (r: Vec<u8>)
    ensures
        r@ == spec_fmt_nat(v as nat),
{
    fmt_u64(v as u64)
}

pub fn fmt_u16(v: u16) -> (r: Vec<u8>)
    ensures
        r@ == spec_fmt_nat(v as nat),
{
    fmt_u64(v as u64)
}

pub fn fmt_u8(v: u8) -> (r: Vec<u8>)
    ensures
        r@ == spec_fmt_nat(v as nat),
{
    fmt_u64(v as u64)
}

/// A fresh copy of a byte vector.
pub fn clone_bytes(v: &Vec<u8>) -> (r: Vec<u8>)
    ensures
        r@ == v@,
{
    let mut r: Vec<u8> = Vec::new();
    let mut i: usize = 0;
    while i < v.len()
        invariant
            0 <= i <= v@.len(),
            r@ == v@.subrange(0, i as int),
        decreases v@.len() - i,
    {
        r.push(v[i]);
        proof {
            assert(v@.subrange(0, i as int + 1) =~= v@.subrange(0, i as int).push(v@[i as int]));
        }
        i = i + 1;
    }
    proof {
        assert(v@.subrange(0, i as int) =~= v@);
    }
    r
}

/// Byte-for-byte equality of two slices.
pub fn bytes_eq(a: &[u8], b: &[u8]) -> (r: bool)
    ensures
        r <==> a@ == b@,
{
    if a.len() != b.len() {
        proof {
            assert(a@.len() != b@.len());
        }
        return false;
    }
    let mut i: usize = 0;
    while i < a.len()
        invariant
            0 <= i <= a@.len(),
            a@.len() == b@.len(),
            forall|j: int| 0 <= j < i ==> a@[j] == b@[j],
        decreases a@.len() - i,
    {
        if a[i] != b[i] {
            return false;
        }
        i = i + 1;
    }
    proof {
        assert(a@ =~= b@);
    }
    true
}

// ---------------------------------------------------------------------------
// Splitting and joining

/// `spec_split(s, sep)` is the sequence of chunks of `s` between occurrences
/// of `sep`; it always has at least one element, and splitting the empty
/// string gives one empty chunk.
pub open spec fn spec_split(s: Seq<u8>, sep: u8) -> Seq<Seq<u8>>
    decreases s.len(),
{
    if s.len() == 0 {
        seq![Seq::<u8>::empty()]
    } else {
        let parts = spec_split(s.drop_last(), sep);
        if s.last() == sep {
            parts.push(Seq::<u8>::empty())
        } else {
            parts.update(parts.len() - 1, parts.last().push(s.last()))
        }
    }
}

pub proof fn lemma_split_len(s: Seq<u8>, sep: u8)
    ensures
        spec_split(s, sep).len() >= 1,
    decreases s.len(),
{
    if s.len() > 0 {
        lemma_split_len(s.drop_last(), sep);
    }
}

/// `spec_join(parts, sep)` concatenates the chunks with `sep` between them.
pub open spec fn spec_join(parts: Seq<Seq<u8>>, sep: u8) -> Seq<u8>
    decreases parts.len(),
{
    if parts.len() == 0 {
        Seq::empty()
    } else if parts.len() == 1 {
        parts[0]
    } else {
        spec_join(parts.drop_last(), sep) + seq![sep] + parts.last()
    }
}

pub open spec fn chunk_has_no_sep(c: Seq<u8>, sep: u8) -> bool {
    forall|i: int| 0 <= i < c.len() ==> #[trigger] c[i] != sep
}

pub open spec fn chunks_have_no_sep(parts: Seq<Seq<u8>>, sep: u8) -> bool {
    forall|i: int| 0 <= i < parts.len() ==> chunk_has_no_sep(#[trigger] parts[i], sep)
}

/// Splitting undoes joining, provided no chunk contains the separator.
pub proof fn lemma_split_join(parts: Seq<Seq<u8>>, sep: u8)
    requires
        parts.len() >= 1,
        chunks_have_no_sep(parts, sep),
    ensures
        spec_split(spec_join(parts, sep), sep) == parts,
    decreases parts.len(), parts.last().len(),
{
    if parts.len() == 1 {
        lemma_split_single_chunk(parts[0], sep);
        assert(spec_join(parts, sep) == parts[0]);
        assert(seq![parts[0]] =~~= parts);
    } else if parts.last().len() == 0 {
        let s = spec_join(parts, sep);
        assert(s =~= spec_join(parts.drop_last(), sep) + seq![sep] + parts.last());
        assert(s =~= spec_join(parts.drop_last(), sep).push(sep));
        lemma_split_join(parts.drop_last(), sep);
        if s.len() == 0 {
        } else {
            assert(s.drop_last() =~= spec_join(parts.drop_last(), sep));
            assert(s.last() == sep);
            assert(spec_split(s, sep) == spec_split(s.drop_last(), sep).push(Seq::<u8>::empty()));
            assert(spec_split(s, sep) =~~= parts);
        }
    } else {
        // Move the last byte of the last chunk out and recurse.
        let lc = parts.last();
        let parts0 = parts.update(parts.len() - 1, lc.drop_last());
        assert(chunks_have_no_sep(parts0, sep)) by {
            assert forall|i: int| 0 <= i < parts0.len() implies chunk_has_no_sep(
                #[trigger] parts0[i],
                sep,
            ) by {
                if i < parts.len() - 1 {
                    assert(parts0[i] == parts[i]);
                } else {
                    assert(forall|j: int|
                        0 <= j < lc.drop_last().len() ==> #[trigger] lc.drop_last()[j] == lc[j]);
                }
            }
        }
        lemma_split_join(parts0, sep);
        let s = spec_join(parts, sep);
        let s0 = spec_join(parts0, sep);
        lemma_join_last(parts, sep);
        lemma_join_last(parts0, sep);
        assert(s =~= s0.push(lc.last())) by {
            assert(parts0.drop_last() =~= parts.drop_last());
            assert(spec_join(parts.drop_last(), sep) == spec_join(parts0.drop_last(), sep));
        }
        assert(s.drop_last() =~= s0);
        assert(s.last() == lc.last());
        assert(lc.last() != sep);
        let sp0 = spec_split(s0, sep);
        assert(sp0 == parts0);
        assert(spec_split(s, sep) == sp0.update(sp0.len() - 1, sp0.last().push(lc.last())));
        assert(sp0.last().push(lc.last()) =~= lc);
        assert(spec_split(s, sep) =~~= parts);
    }
}

/// Peeling the first chunk off a split: if `a` is free of the separator,
/// splitting `a + sep + rest` gives `a` and then the chunks of `rest`.
pub proof fn lemma_split_cons(a: Seq<u8>, rest: Seq<u8>, sep: u8)
    requires
        chunk_has_no_sep(a, sep),
    ensures
        spec_split(a + seq![sep] + rest, sep) == seq![a] + spec_split(rest, sep),
    decreases rest.len(),
{
    let s = a + seq![sep] + rest;
    if rest.len() == 0 {
        assert(s =~= (a + seq![sep]));
        assert((a + seq![sep]).drop_last() =~= a);
        assert((a + seq![sep]).last() == sep);
        lemma_split_single_chunk(a, sep);
        assert(spec_split(a + seq![sep], sep) == spec_split(a, sep).push(Seq::<u8>::empty()));
        assert(spec_split(s, sep) =~~= seq![a] + spec_split(rest, sep));
    } else {
        lemma_split_cons(a, rest.drop_last(), sep);
        let s0 = a + seq![sep] + rest.drop_last();
        assert(s.drop_last() =~= s0);
        assert(s.last() == rest.last());
        let sp0 = spec_split(s0, sep);
        let rp0 = spec_split(rest.drop_last(), sep);
        lemma_split_len(rest.drop_last(), sep);
        assert(sp0 == seq![a] + rp0);
        if rest.last() == sep {
            assert(spec_split(s, sep) == sp0.push(Seq::<u8>::empty()));
            assert(spec_split(rest, sep) == rp0.push(Seq::<u8>::empty()));
            assert(spec_split(s, sep) =~~= seq![a] + spec_split(rest, sep));
        } else {
            assert(spec_split(s, sep) == sp0.update(sp0.len() - 1, sp0.last().push(rest.last())));
            assert(spec_split(rest, sep) == rp0.update(rp0.len() - 1, rp0.last().push(rest.last())));
            assert(sp0.last() == rp0.last());
            assert(spec_split(s, sep) =~~= seq![a] + spec_split(rest, sep));
        }
    }
}

/// Splitting a chunk free of the separator yields just that chunk.
pub proof fn lemma_split_single_chunk(c: Seq<u8>, sep: u8)
    requires
        chunk_has_no_sep(c, sep),
    ensures
        spec_split(c, sep) == seq![c],
    decreases c.len(),
{
    if c.len() == 0 {
        assert(spec_split(c, sep) =~~= seq![c]);
    } else {
        assert(chunk_has_no_sep(c.drop_last(), sep)) by {
            assert(forall|j: int|
                0 <= j < c.drop_last().len() ==> #[trigger] c.drop_last()[j] == c[j]);
        }
        lemma_split_single_chunk(c.drop_last(), sep);
        assert(c.last() != sep);
        let parts = spec_split(c.drop_last(), sep);
        assert(parts == seq![c.drop_last()]);
        assert(spec_split(c, sep) == parts.update(0, parts[0].push(c.last())));
        assert(parts[0].push(c.last()) =~= c);
        assert(spec_split(c, sep) =~~= seq![c]);
    }
}

/// The join of more than one chunk ends, byte for byte, with its last chunk.
proof fn lemma_join_last(parts: Seq<Seq<u8>>, sep: u8)
    requires
        parts.len() >= 2,
    ensures
        spec_join(parts, sep) == (spec_join(parts.drop_last(), sep) + seq![sep]) + parts.last(),
{
}

/// Splits a byte slice on a separator byte.
pub fn split(s: &[u8], sep: u8) -> (r: Vec<Vec<u8>>)
    ensures
        r.deep_view() == spec_split(s@, sep),
        r@.len() >= 1,
{
    let mut parts: Vec<Vec<u8>> = Vec::new();
    let mut cur: Vec<u8> = Vec::new();
    let mut i: usize = 0;
    proof {
        assert(s@.subrange(0, 0) =~= Seq::<u8>::empty());
        assert(parts.deep_view().push(cur@) =~~= spec_split(s@.subrange(0, 0), sep));
    }
    while i < s.len()
        invariant
            0 <= i <= s@.len(),
            parts.deep_view().push(cur@) == spec_split(s@.subrange(0, i as int), sep),
        decreases s@.len() - i,
    {
        let ghost pfx = s@.subrange(0, i as int);
        let ghost pfx1 = s@.subrange(0, i as int + 1);
        proof {
            assert(pfx1.drop_last() =~= pfx);
            lemma_split_len(pfx, sep);
        }
        let ghost old_parts = parts.deep_view();
        let ghost old_cur = cur@;
        let b = s[i];
        if b == sep {
            parts.push(cur);
            cur = Vec::new();
            proof {
                assert(parts.deep_view() =~~= old_parts.push(old_cur));
                assert(parts.deep_view().push(cur@) =~~= spec_split(pfx1, sep));
            }
        } else {
            cur.push(b);
            proof {
                let sp = spec_split(pfx, sep);
                assert(spec_split(pfx1, sep) == sp.update(sp.len() - 1, sp.last().push(b)));
                assert(parts.deep_view().push(cur@) =~~= spec_split(pfx1, sep));
            }
        }
        i = i + 1;
    }
    proof {
        assert(s@.subrange(0, i as int) =~= s@);
    }
    let ghost old_parts = parts.deep_view();
    let ghost old_cur = cur@;
    parts.push(cur);
    proof {
        assert(parts.deep_view() =~~= old_parts.push(old_cur));
        lemma_split_len(s@, sep);
    }
    parts
}

/// Joins chunks with a separator byte between them.
pub fn join(parts: &Vec<Vec<u8>>, sep: u8) -> (r: Vec<u8>)
    ensures
        r@ == spec_join(parts.deep_view(), sep),
{
    let mut out: Vec<u8> = Vec::new();
    let mut i: usize = 0;
    while i < parts.len()
        invariant
            0 <= i <= parts@.len(),
            out@ == spec_join(parts.deep_view().subrange(0, i as int), sep),
        decreases parts@.len() - i,
    {
        let ghost pv = parts.deep_view();
        if i > 0 {
            out.push(sep);
        }
        let mut j: usize = 0;
        let part = &parts[i];
        let ghost mid = out@;
        while j < part.len()
            invariant
                0 <= j <= part@.len(),
                out@ == mid + part@.subrange(0, j as int),
            decreases part@.len() - j,
        {
            out.push(part[j]);
            proof {
                assert(mid + part@.subrange(0, j as int + 1) =~= (mid + part@.subrange(
                    0,
                    j as int,
                )).push(part@[j as int]));
            }
            j = j + 1;
        }
        proof {
            assert(part@.subrange(0, part@.len() as int) =~= pv[i as int]);
            let p1 = pv.subrange(0, i as int + 1);
            assert(p1.drop_last() =~= pv.subrange(0, i as int));
            assert(p1.last() == pv[i as int]);
            if i == 0 {
                assert(out@ =~= spec_join(p1, sep));
            } else {
                assert(out@ =~= spec_join(pv.subrange(0, i as int), sep) + seq![sep]
                    + pv[i as int]);
            }
        }
        i = i + 1;
    }
    proof {
        assert(parts.deep_view().subrange(0, i as int) =~= parts.deep_view());
    }
    out
}

/// Splitting at the first occurrence of a separator: `None` when the
/// separator does not occur.
pub open spec fn spec_split2(s: Seq<u8>, sep: u8) -> Option<(Seq<u8>, Seq<u8>)>
    decreases s.len(),
{
    if s.len() == 0 {
        None
    } else if s[0] == sep {
        Some((Seq::empty(), s.drop_first()))
    } else {
        match spec_split2(s.drop_first(), sep) {
            None => None,
            Some((a, b)) => Some((seq![s[0]] + a, b)),
        }
    }
}

/// When `k` is the first index holding `sep`, the split is the two sides.
pub proof fn lemma_split2_found(s: Seq<u8>, sep: u8, k: int)
    requires
        0 <= k < s.len(),
        s[k] == sep,
        forall|j: int| 0 <= j < k ==> s[j] != sep,
    ensures
        spec_split2(s, sep) == Some((s.subrange(0, k), s.subrange(k + 1, s.len() as int))),
    decreases s.len(),
{
    if s[0] == sep {
        assert(k == 0);
        assert(s.subrange(0, 0) =~= Seq::<u8>::empty());
        assert(s.subrange(1, s.len() as int) =~= s.drop_first());
    } else {
        let s0 = s.drop_first();
        lemma_split2_found(s0, sep, k - 1);
        assert(seq![s[0]] + s0.subrange(0, k - 1) =~= s.subrange(0, k));
        assert(s0.subrange(k, s0.len() as int) =~= s.subrange(k + 1, s.len() as int));
    }
}

/// When the separator does not occur, there is no split.
pub proof fn lemma_split2_missing(s: Seq<u8>, sep: u8)
    requires
        chunk_has_no_sep(s, sep),
    ensures
        spec_split2(s, sep) is None,
    decreases s.len(),
{
    if s.len() > 0 {
        assert(chunk_has_no_sep(s.drop_first(), sep)) by {
            assert(forall|j: int|
                0 <= j < s.drop_first().len() ==> #[trigger] s.drop_first()[j] == s[j + 1]);
        }
        lemma_split2_missing(s.drop_first(), sep);
    }
}

/// Splits at the first occurrence of `sep`.
pub fn split2(s: &[u8], sep: u8) -> (r: Option<(Vec<u8>, Vec<u8>)>)
    ensures
        match r {
            Some(p) => spec_split2(s@, sep) == Some((p.0@, p.1@)),
            None => spec_split2(s@, sep) is None,
        },
{
    let mut k: usize = 0;
    while k < s.len()
        invariant
            0 <= k <= s@.len(),
            forall|j: int| 0 <= j < k ==> s@[j] != sep,
        decreases s@.len() - k,
    {
        if s[k] == sep {
            let mut head: Vec<u8> = Vec::new();
            let mut i: usize = 0;
            while i < k
                invariant
                    0 <= i <= k < s@.len(),
                    head@ == s@.subrange(0, i as int),
                decreases k - i,
            {
                head.push(s[i]);
                proof {
                    assert(s@.subrange(0, i as int + 1) =~= s@.subrange(0, i as int).push(
                        s@[i as int],
                    ));
                }
                i = i + 1;
            }
            let mut tail: Vec<u8> = Vec::new();
            let mut j: usize = k + 1;
            proof {
                assert(s@.subrange(k as int + 1, k as int + 1) =~= Seq::<u8>::empty());
            }
            while j < s.len()
                invariant
                    k < j <= s@.len(),
                    tail@ == s@.subrange(k as int + 1, j as int),
                decreases s@.len() - j,
            {
                tail.push(s[j]);
                proof {
                    assert(s@.subrange(k as int + 1, j as int + 1) =~= s@.subrange(
                        k as int + 1,
                        j as int,
                    ).push(s@[j as int]));
                }
                j = j + 1;
            }
            proof {
                lemma_split2_found(s@, sep, k as int);
                assert(tail@ =~= s@.subrange(k as int + 1, s@.len() as int));
            }
            return Some((head, tail));
        }
        k = k + 1;
    }
    proof {
        lemma_split2_missing(s@, sep);
    }
    None
}

// ---------------------------------------------------------------------------
// Trimming

pub open spec fn spec_trim_front(s: Seq<u8>) -> Seq<u8>
    decreases s.len(),
{
    if s.len() > 0 && is_space(s[0]) {
        spec_trim_front(s.drop_first())
    } else {
        s
    }
}

pub open spec fn spec_trim_back(s: Seq<u8>) -> Seq<u8>
    decreases s.len(),
{
    if s.len() > 0 && is_space(s.last()) {
        spec_trim_back(s.drop_last())
    } else {
        s
    }
}

/// The string with leading and trailing whitespace removed.
pub open spec fn spec_trim(s: Seq<u8>) -> Seq<u8> {
    spec_trim_back(spec_trim_front(s))
}

/// A trimmed string: no leading or trailing whitespace.
pub open spec fn is_trimmed(s: Seq<u8>) -> bool {
    s.len() > 0 ==> (!is_space(s[0]) && !is_space(s.last()))
}

/// Removes leading and trailing whitespace.
pub fn trim(s: &[u8]) -> (r: Vec<u8>)
    ensures
        r@ == spec_trim(s@),
{
    let mut lo: usize = 0;
    let mut hi: usize = s.len();
    proof {
        assert(s@.subrange(0, s@.len() as int) =~= s@);
    }
    while lo < hi && (s[lo] == 0x20 || s[lo] == 0x09 || s[lo] == 0x0d)
        invariant
            0 <= lo <= hi <= s@.len(),
            spec_trim_front(s@) == spec_trim_front(s@.subrange(lo as int, hi as int)),
            hi == s@.len(),
        decreases hi - lo,
    {
        proof {
            let sub = s@.subrange(lo as int, hi as int);
            assert(sub.drop_first() =~= s@.subrange(lo as int + 1, hi as int));
        }
        lo = lo + 1;
    }
    proof {
        let sub = s@.subrange(lo as int, hi as int);
        if sub.len() > 0 {
            assert(sub[0] == s@[lo as int]);
            assert(!is_space(sub[0]));
        }
        assert(spec_trim_front(sub) == sub);
        assert(spec_trim(s@) == spec_trim_back(sub));
    }
    while lo < hi && (s[hi - 1] == 0x20 || s[hi - 1] == 0x09 || s[hi - 1] == 0x0d)
        invariant
            0 <= lo <= hi <= s@.len(),
            spec_trim(s@) == spec_trim_back(s@.subrange(lo as int, hi as int)),
            lo < hi ==> !is_space(s@[lo as int]),
        decreases hi - lo,
    {
        proof {
            let sub = s@.subrange(lo as int, hi as int);
            assert(sub.drop_last() =~= s@.subrange(lo as int, hi as int - 1));
            assert(sub.last() == s@[hi as int - 1]);
        }
        hi = hi - 1;
    }
    let mut r: Vec<u8> = Vec::new();
    let mut i: usize = lo;
    proof {
        assert(s@.subrange(lo as int, lo as int) =~= Seq::<u8>::empty());
    }
    while i < hi
        invariant
            lo <= i <= hi <= s@.len(),
            r@ == s@.subrange(lo as int, i as int),
        decreases hi - i,
    {
        r.push(s[i]);
        proof {
            assert(s@.subrange(lo as int, i as int + 1) =~= s@.subrange(lo as int, i as int).push(
                s@[i as int],
            ));
        }
        i = i + 1;
    }
    proof {
        let sub = s@.subrange(lo as int, hi as int);
        if sub.len() > 0 {
            assert(sub.last() == s@[hi as int - 1]);
            assert(!is_space(sub.last()));
        }
        assert(spec_trim_back(sub) == sub);
    }
    r
}

} // verus!
