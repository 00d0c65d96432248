//! The level file format.
//!
//! A level is stored as a compact, human-readable text: tuples in
//! parentheses, lists in brackets, strings in double quotes, numbers in
//! decimal, in field order. For a whole level:
//!
//! ```text
//! ("name",Some("author"),[particles...],[obstacles...],(x,y))
//! ```
//!
//! where a particle is `(kind,radius,(r,g,b),(vx,vy),[subparticles...])`
//! with kind `Normal` or `Killer`, a particle entry of the level is
//! `((x,y),particle)`, and an obstacle is
//! `((x,y),rotation,(r,g,b),width,height,is_killer)`.
//!
//! The serializer emits exactly this canonical form; the parser accepts
//! exactly it (no whitespace, no leading zeros) and rejects everything
//! else, so a file parses if and only if it is the serialization of some
//! level, and parsing a serialized level reproduces it structurally: the
//! round trip is proved below. The editor's "copy to clipboard" action
//! emits the same text.

use vstd::prelude::*;

verus! {

/// An ASCII decimal digit.
pub open spec fn is_digit(b: u8) -> bool {
    48 <= b <= 57
}

/// The canonical decimal numeral of `v`: most significant digit first, no
/// leading zeros.
pub open spec fn dec_digits(v: nat) -> Seq<u8>
    decreases v,
{
    if v < 10 {
        seq![(48 + v) as u8]
    } else {
        dec_digits(v / 10).push((48 + v % 10) as u8)
    }
}

/// Every byte of a numeral is a digit.
pub open spec fn is_digit_seq(s: Seq<u8>) -> bool {
    forall|i: int| 0 <= i < s.len() ==> is_digit(#[trigger] s[i])
}

/// The value of a digit string, most significant digit first.
pub open spec fn digits_val(s: Seq<u8>) -> nat
    decreases s,
{
    if s.len() == 0 {
        0
    } else {
        digits_val(s.drop_last()) * 10 + ((s.last() - 48) as nat)
    }
}

/// `dec_digits` produces a nonempty digit string whose value is `v` and
/// whose first digit is zero only for zero itself.
pub proof fn lemma_dec_digits(v: nat)
    ensures
        dec_digits(v).len() >= 1,
        is_digit_seq(dec_digits(v)),
        digits_val(dec_digits(v)) == v,
        dec_digits(v)[0] == 48 ==> v == 0,
    decreases v,
{
    if v < 10 {
        reveal_with_fuel(digits_val, 2);
        let d = dec_digits(v);
        assert(d.drop_last() =~= Seq::<u8>::empty());
    } else {
        lemma_dec_digits(v / 10);
        let d = dec_digits(v);
        assert(d.drop_last() =~= dec_digits(v / 10));
        assert(d[0] == dec_digits(v / 10)[0]);
    }
}

/// A canonical digit string is the numeral of its value: nonempty, all
/// digits, and no leading zero except for "0" itself.
pub proof fn lemma_digits_val_canonical(s: Seq<u8>)
    requires
        s.len() >= 1,
        is_digit_seq(s),
        s[0] == 48 ==> s.len() == 1,
    ensures
        dec_digits(digits_val(s)) == s,
    decreases s,
{
    if s.len() == 1 {
        reveal_with_fuel(digits_val, 2);
        assert(s.drop_last() =~= Seq::<u8>::empty());
        assert(dec_digits(digits_val(s)) =~= s);
    } else {
        let front = s.drop_last();
        lemma_digits_val_canonical(front);
        assert(front[0] == s[0]);
        lemma_digits_val_positive(front);
        let v = digits_val(s);
        assert(v == digits_val(front) * 10 + (s.last() - 48));
        assert(v >= 10) by (nonlinear_arith)
            requires
                v == digits_val(front) * 10 + (s.last() - 48),
                digits_val(front) >= 1,
                s.last() >= 48,
        ;
        assert(v / 10 == digits_val(front) && v % 10 == s.last() - 48) by (nonlinear_arith)
            requires
                v == digits_val(front) * 10 + (s.last() - 48),
                48 <= s.last() <= 57,
        ;
        assert(dec_digits(v) =~= s);
    }
}

/// A canonical numeral other than "0" has a positive value.
pub proof fn lemma_digits_val_positive(s: Seq<u8>)
    requires
        s.len() >= 1,
        is_digit_seq(s),
        s[0] != 48,
    ensures
        digits_val(s) >= 1,
    decreases s,
{
    if s.len() == 1 {
    } else {
        let front = s.drop_last();
        assert(front[0] == s[0]);
        lemma_digits_val_positive(front);
        assert(digits_val(s) >= 10) by (nonlinear_arith)
            requires
                digits_val(s) == digits_val(front) * 10 + (s.last() - 48),
                digits_val(front) >= 1,
                s.last() >= 48,
        ;
    }
}

/// A prefix of a digit string is worth no more than the whole.
pub proof fn lemma_digits_val_prefix(s: Seq<u8>, j: int)
    requires
        is_digit_seq(s),
        0 <= j <= s.len(),
    ensures
        digits_val(s.subrange(0, j)) <= digits_val(s),
    decreases s.len() - j,
{
    if j == s.len() {
        assert(s.subrange(0, j) =~= s);
    } else {
        lemma_digits_val_prefix(s, j + 1);
        let a = s.subrange(0, j);
        let b = s.subrange(0, j + 1);
        assert(b.drop_last() =~= a);
        assert(digits_val(b) == digits_val(a) * 10 + (b.last() - 48));
        assert(digits_val(a) <= digits_val(a) * 10) by (nonlinear_arith);
    }
}

/// Appends the canonical decimal numeral of `v`.
pub fn ser_u64(out: &mut Vec<u8>, v: u64)
    ensures
        final(out)@ == old(out)@ + dec_digits(v as nat),
    decreases v,
{
    if v < 10 {
        out.push(48 + v as u8);
        assert(final(out)@ =~= old(out)@ + dec_digits(v as nat));
    } else {
        ser_u64(out, v / 10);
        out.push(48 + (v % 10) as u8);
        assert(final(out)@ =~= old(out)@ + dec_digits(v as nat));
    }
}

/// A range that holds a concatenation splits at the first part's length.
pub proof fn lemma_prefix_split(sq: Seq<u8>, pos: int, end: int, a: Seq<u8>, b: Seq<u8>)
    requires
        0 <= pos <= end <= sq.len(),
        sq.subrange(pos, end) == a + b,
    ensures
        pos + a.len() <= end,
        sq.subrange(pos, pos + a.len()) == a,
        sq.subrange(pos + a.len(), end) == b,
{
    let whole = sq.subrange(pos, end);
    assert(whole.len() == a.len() + b.len());
    assert forall|i: int| 0 <= i < a.len() implies sq.subrange(pos, pos + a.len())[i] == a[i] by {
        assert((a + b)[i] == a[i]);
        assert(whole[i] == sq[pos + i]);
    }
    assert(sq.subrange(pos, pos + a.len()) =~= a);
    assert forall|i: int| 0 <= i < b.len() implies sq.subrange(pos + a.len(), end)[i] == b[i] by {
        assert((a + b)[a.len() + i] == b[i]);
        assert(whole[a.len() + i] == sq[pos + a.len() + i]);
    }
    assert(sq.subrange(pos + a.len(), end) =~= b);
}

/// Adjacent ranges concatenate.
pub proof fn lemma_subrange_cat(sq: Seq<u8>, a: int, m: int, b: int)
    requires
        0 <= a <= m <= b <= sq.len(),
    ensures
        sq.subrange(a, b) == sq.subrange(a, m) + sq.subrange(m, b),
{
    assert(sq.subrange(a, b) =~= sq.subrange(a, m) + sq.subrange(m, b));
}

/// Appends one byte, stated as concatenation.
pub fn push_byte(out: &mut Vec<u8>, b: u8)
    ensures
        final(out)@ == old(out)@ + seq![b],
{
    out.push(b);
    proof {
        assert(final(out)@ =~= old(out)@ + seq![b]);
    }
}

/// Appends every byte of `lit`.
pub fn emit(out: &mut Vec<u8>, lit: &Vec<u8>)
    ensures
        final(out)@ == old(out)@ + lit@,
{
    let mut i: usize = 0;
    while i < lit.len()
        invariant
            i <= lit@.len(),
            out@ == old(out)@ + lit@.subrange(0, i as int),
        decreases lit@.len() - i,
    {
        out.push(lit[i]);
        proof {
            assert(old(out)@ + lit@.subrange(0, i + 1) =~= (old(out)@ + lit@.subrange(0, i as int)).push(
                lit@[i as int],
            ));
        }
        i += 1;
    }
    proof {
        assert(lit@.subrange(0, lit@.len() as int) =~= lit@);
    }
}

/// Whether `lit` occurs at `pos`. Consumes it when it does.
pub fn expect(s: &Vec<u8>, pos: usize, lit: &Vec<u8>) -> (r: Option<usize>)
    ensures
        r matches Some(end) ==> end == pos + lit@.len() && end <= s@.len() && s@.subrange(
            pos as int,
            end as int,
        ) == lit@,
        r is None ==> !(pos + lit@.len() <= s@.len() && s@.subrange(
            pos as int,
            pos + lit@.len(),
        ) == lit@),
{
    let m = lit.len();
    let n = s.len();
    if m > n || pos > n - m {
        return None;
    }
    let mut i: usize = 0;
    while i < m
        invariant
            i <= m,
            m == lit@.len(),
            n == s@.len(),
            pos + m <= n,
            forall|j: int| 0 <= j < i ==> s@[pos + j] == lit@[j],
        decreases m - i,
    {
        if s[pos + i] != lit[i] {
            proof {
                assert(s@.subrange(pos as int, pos + lit@.len())[i as int] == s@[pos + i]);
            }
            return None;
        }
        i += 1;
    }
    proof {
        assert(s@.subrange(pos as int, (pos + m) as int) =~= lit@);
    }
    Some(pos + m)
}

/// The canonical decimal numeral of a signed value: a minus sign and the
/// magnitude's numeral.
pub open spec fn spec_ser_i64(v: i64) -> Seq<u8> {
    if v >= 0 {
        dec_digits(v as nat)
    } else {
        seq![45u8] + dec_digits((-(v as int)) as nat)
    }
}

/// Appends the canonical decimal numeral of `v`.
pub fn ser_i64(out: &mut Vec<u8>, v: i64)
    ensures
        final(out)@ == old(out)@ + spec_ser_i64(v),
{
    if v >= 0 {
        ser_u64(out, v as u64);
    } else {
        out.push(45);
        let mag: u64 = ((-(v + 1)) as u64) + 1;
        ser_u64(out, mag);
        proof {
            assert(final(out)@ =~= old(out)@ + spec_ser_i64(v));
        }
    }
}

/// Reads a canonical signed decimal numeral at `pos`.
pub fn parse_i64(s: &Vec<u8>, pos: usize) -> (r: Option<(i64, usize)>)
    ensures
        r matches Some(pr) ==> {
            &&& pos <= pr.1 <= s@.len()
            &&& s@.subrange(pos as int, pr.1 as int) == spec_ser_i64(pr.0)
            &&& (pr.1 == s@.len() || !is_digit(s@[pr.1 as int]))
        },
        forall|v: i64, end: int|
            #![trigger s@.subrange(pos as int, end), spec_ser_i64(v)]
            pos <= end <= s@.len() && s@.subrange(pos as int, end) == spec_ser_i64(v) && (end
                == s@.len() || !is_digit(s@[end])) ==> (r matches Some(pr) && pr.0 == v && pr.1
                == end),
{
    let ghost sq = s@;
    let n = s.len();
    if pos < n && s[pos] == 45 {
        let inner = parse_u64(s, pos + 1);
        proof {
            // A signed numeral here must be negative, and the inner parser
            // must have read exactly its magnitude.
            assert forall|v: i64, end: int|
                #![trigger sq.subrange(pos as int, end), spec_ser_i64(v)]
                pos <= end <= sq.len() && sq.subrange(pos as int, end) == spec_ser_i64(v) && (end
                    == sq.len() || !is_digit(sq[end])) implies (v < 0 && (inner matches Some(p)
                && p.0 as int == -(v as int) && p.1 == end)) by {
                if v >= 0 {
                    lemma_dec_digits(v as nat);
                    assert(sq.subrange(pos as int, end)[0] == sq[pos as int]);
                } else {
                    lemma_prefix_split(
                        sq,
                        pos as int,
                        end,
                        seq![45u8],
                        dec_digits((-(v as int)) as nat),
                    );
                    let m = (-(v as int)) as u64;
                    assert(m as nat == (-(v as int)) as nat);
                    assert(sq.subrange(pos + 1, end) == dec_digits(m as nat));
                }
            }
        }
        match inner {
            Some((mag, end)) => {
                if mag == 0 || mag > 9_223_372_036_854_775_808 {
                    // "-0" is not canonical, and a larger magnitude does
                    // not fit a signed value.
                    return None;
                }
                let v: i64 = if mag == 9_223_372_036_854_775_808 {
                    i64::MIN
                } else {
                    -(mag as i64)
                };
                proof {
                    lemma_subrange_cat(sq, pos as int, pos + 1, end as int);
                    assert(sq.subrange(pos as int, pos + 1) =~= seq![45u8]);
                    assert(mag as nat == (-(v as int)) as nat);
                }
                Some((v, end))
            },
            None => None,
        }
    } else {
        let inner = parse_u64(s, pos);
        proof {
            // A signed numeral here must be non-negative: a negative one
            // starts with the minus sign.
            assert forall|v: i64, end: int|
                #![trigger sq.subrange(pos as int, end), spec_ser_i64(v)]
                pos <= end <= sq.len() && sq.subrange(pos as int, end) == spec_ser_i64(v) && (end
                    == sq.len() || !is_digit(sq[end])) implies (v >= 0 && (inner matches Some(p)
                && p.0 as int == v as int && p.1 == end)) by {
                if v < 0 {
                    lemma_prefix_split(
                        sq,
                        pos as int,
                        end,
                        seq![45u8],
                        dec_digits((-(v as int)) as nat),
                    );
                    assert(sq.subrange(pos as int, end)[0] == 45u8);
                    assert(pos < sq.len());
                } else {
                    let m = v as u64;
                    assert(m as nat == v as nat);
                    assert(sq.subrange(pos as int, end) == dec_digits(m as nat));
                }
            }
        }
        match inner {
            Some((mag, end)) => {
                if mag > 9_223_372_036_854_775_807 {
                    return None;
                }
                Some((mag as i64, end))
            },
            None => None,
        }
    }
}

/// Reads a canonical decimal numeral at `pos`: a maximal digit run without
/// a leading zero whose value fits a `u64`. Returns the value and the
/// position after it, or nothing if no such numeral starts at `pos`.
pub fn parse_u64(s: &Vec<u8>, pos: usize) -> (r: Option<(u64, usize)>)
    ensures
        r matches Some(pr) ==> {
            &&& pos <= pr.1 <= s@.len()
            &&& s@.subrange(pos as int, pr.1 as int) == dec_digits(pr.0 as nat)
            &&& (pr.1 == s@.len() || !is_digit(s@[pr.1 as int]))
        },
        forall|v: u64, end: int|
            #![trigger s@.subrange(pos as int, end), dec_digits(v as nat)]
            pos <= end <= s@.len() && s@.subrange(pos as int, end) == dec_digits(v as nat) && (end
                == s@.len() || !is_digit(s@[end])) ==> (r matches Some(pr) && pr.0 == v && pr.1
                == end),
{
    let ghost sq = s@;
    let n = s.len();
    if pos >= n || !(48 <= s[pos] && s[pos] <= 57) {
        proof {
            assert forall|v: u64, end: int|
                #![trigger sq.subrange(pos as int, end), dec_digits(v as nat)]
                pos <= end <= sq.len() && sq.subrange(pos as int, end) == dec_digits(v as nat) && (
                end == sq.len() || !is_digit(sq[end])) implies false by {
                lemma_dec_digits(v as nat);
                assert(sq.subrange(pos as int, end)[0] == sq[pos as int]);
            }
        }
        return None;
    }
    if s[pos] == 48 {
        // "0" stands alone: a longer run would be a leading zero.
        if pos + 1 < n && 48 <= s[pos + 1] && s[pos + 1] <= 57 {
            proof {
                assert forall|v: u64, end: int|
                    #![trigger sq.subrange(pos as int, end), dec_digits(v as nat)]
                    pos <= end <= sq.len() && sq.subrange(pos as int, end) == dec_digits(v as nat)
                        && (end == sq.len() || !is_digit(sq[end])) implies false by {
                    lemma_dec_digits(v as nat);
                    assert(sq.subrange(pos as int, end)[0] == sq[pos as int]);
                    assert(v == 0);
                    assert(end == pos + 1);
                }
            }
            return None;
        }
        proof {
            assert(sq.subrange(pos as int, pos + 1) =~= dec_digits(0nat));
            assert forall|v: u64, end: int|
                #![trigger sq.subrange(pos as int, end), dec_digits(v as nat)]
                pos <= end <= sq.len() && sq.subrange(pos as int, end) == dec_digits(v as nat) && (
                end == sq.len() || !is_digit(sq[end])) implies v == 0 && end == pos + 1 by {
                lemma_dec_digits(v as nat);
                assert(sq.subrange(pos as int, end)[0] == sq[pos as int]);
            }
        }
        return Some((0, pos + 1));
    }
    let mut acc: u64 = (s[pos] - 48) as u64;
    let mut i: usize = pos + 1;
    proof {
        reveal_with_fuel(digits_val, 2);
        assert(sq.subrange(pos as int, pos + 1).drop_last() =~= Seq::<u8>::empty());
        assert(acc == digits_val(sq.subrange(pos as int, pos + 1)));
    }
    loop
        invariant
            pos < i <= n,
            n == sq.len(),
            sq == s@,
            sq[pos as int] != 48,
            is_digit_seq(sq.subrange(pos as int, i as int)),
            acc == digits_val(sq.subrange(pos as int, i as int)),
        decreases n - i,
    {
        if i >= n || !(48 <= s[i] && s[i] <= 57) {
            // The run ends here: what was read is canonical.
            proof {
                let run = sq.subrange(pos as int, i as int);
                assert(run[0] == sq[pos as int]);
                lemma_digits_val_canonical(run);
                assert forall|v: u64, end: int|
                    #![trigger sq.subrange(pos as int, end), dec_digits(v as nat)]
                    pos <= end <= sq.len() && sq.subrange(pos as int, end) == dec_digits(v as nat)
                        && (end == sq.len() || !is_digit(sq[end])) implies v == acc && end == i by {
                    lemma_dec_digits(v as nat);
                    if end < i {
                        assert(is_digit(run[end - pos]));
                        assert(run[end - pos] == sq[end]);
                        assert(false);
                    }
                    if end > i {
                        assert(is_digit(sq.subrange(pos as int, end)[i - pos]));
                        assert(sq.subrange(pos as int, end)[i - pos] == sq[i as int]);
                        assert(false);
                    }
                    assert(sq.subrange(pos as int, end) =~= run);
                }
            }
            return Some((acc, i));
        }
        let d = (s[i] - 48) as u64;
        if acc > (u64::MAX - d) / 10 {
            // The numeral would not fit: no u64 numeral ends past here.
            proof {
                assert forall|v: u64, end: int|
                    #![trigger sq.subrange(pos as int, end), dec_digits(v as nat)]
                    pos <= end <= sq.len() && sq.subrange(pos as int, end) == dec_digits(v as nat)
                        && (end == sq.len() || !is_digit(sq[end])) implies false by {
                    lemma_dec_digits(v as nat);
                    if end <= i {
                        assert(is_digit(sq.subrange(pos as int, end)[end - 1 - pos]));
                        assert(sq.subrange(pos as int, end)[end - 1 - pos] == sq[end - 1]);
                        if end < i {
                            assert(sq.subrange(pos as int, i as int)[end - pos] == sq[end]);
                            assert(false);
                        }
                        if end == i {
                            assert(false);
                        }
                    }
                    let de = sq.subrange(pos as int, end);
                    lemma_digits_val_prefix(de, i + 1 - pos);
                    assert(de.subrange(0, i + 1 - pos) =~= sq.subrange(pos as int, i + 1));
                    let run1 = sq.subrange(pos as int, i + 1);
                    assert(run1.drop_last() =~= sq.subrange(pos as int, i as int));
                    assert(digits_val(run1) == acc * 10 + d);
                    assert(acc * 10 + d > u64::MAX) by (nonlinear_arith)
                        requires
                            acc > (u64::MAX - d) / 10,
                            0 <= d <= 9,
                    ;
                }
            }
            return None;
        }
        proof {
            let run1 = sq.subrange(pos as int, i + 1);
            assert(run1.drop_last() =~= sq.subrange(pos as int, i as int));
            assert(run1.last() == sq[i as int]);
            assert(acc * 10 + d <= u64::MAX) by (nonlinear_arith)
                requires
                    acc <= (u64::MAX - d) / 10,
                    0 <= d <= 9,
            ;
        }
        acc = acc * 10 + d;
        i = i + 1;
    }
}

/// A quoted string: the text between double quotes, which the text itself
/// may not contain.
pub open spec fn spec_ser_string(t: Seq<u8>) -> Seq<u8> {
    seq![34u8] + t + seq![34u8]
}

/// Appends `t` in quotes.
pub fn ser_string(out: &mut Vec<u8>, t: &Vec<u8>)
    requires
        crate::level::wf_text(t@),
    ensures
        final(out)@ == old(out)@ + spec_ser_string(t@),
{
    out.push(34);
    emit(out, t);
    out.push(34);
    proof {
        assert(final(out)@ =~= old(out)@ + spec_ser_string(t@));
    }
}

/// Reads a quoted string at `pos`: everything up to the next quote.
pub fn parse_string(s: &Vec<u8>, pos: usize) -> (r: Option<(Vec<u8>, usize)>)
    ensures
        r matches Some(pr) ==> {
            &&& pos <= pr.1 <= s@.len()
            &&& s@.subrange(pos as int, pr.1 as int) == spec_ser_string(pr.0@)
            &&& crate::level::wf_text(pr.0@)
        },
        forall|t: Seq<u8>, end: int|
            #![trigger s@.subrange(pos as int, end), spec_ser_string(t)]
            pos <= end <= s@.len() && s@.subrange(pos as int, end) == spec_ser_string(t)
                && crate::level::wf_text(t) ==> (r matches Some(pr) && pr.0@ == t && pr.1 == end),
{
    let ghost sq = s@;
    let n = s.len();
    if pos >= n || s[pos] != 34 {
        proof {
            assert forall|t: Seq<u8>, end: int|
                #![trigger sq.subrange(pos as int, end), spec_ser_string(t)]
                pos <= end <= sq.len() && sq.subrange(pos as int, end) == spec_ser_string(t)
                    && crate::level::wf_text(t) implies false by {
                assert(spec_ser_string(t).len() == t.len() + 2);
                assert(end - pos == t.len() + 2);
                assert(sq.subrange(pos as int, end)[0] == sq[pos as int]);
            }
        }
        return None;
    }
    let mut text: Vec<u8> = Vec::new();
    let mut i: usize = pos + 1;
    loop
        invariant
            pos + 1 <= i <= n,
            n == sq.len(),
            sq == s@,
            sq[pos as int] == 34,
            text@ == sq.subrange(pos + 1, i as int),
            crate::level::wf_text(text@),
        decreases n - i,
    {
        if i >= n {
            // No closing quote: not a string.
            proof {
                assert forall|t: Seq<u8>, end: int|
                    #![trigger sq.subrange(pos as int, end), spec_ser_string(t)]
                    pos <= end <= sq.len() && sq.subrange(pos as int, end) == spec_ser_string(t)
                        && crate::level::wf_text(t) implies false by {
                    assert(spec_ser_string(t).len() == t.len() + 2);
                assert(end - pos == t.len() + 2);
                    assert(sq.subrange(pos as int, end)[end - 1 - pos] == sq[end - 1]);
                    assert(sq[end - 1] == 34);
                    assert(end - 1 < n);
                    if end - 1 < i {
                        assert(sq.subrange(pos + 1, i as int)[end - 1 - pos - 1] == sq[end - 1]);
                        assert(crate::level::wf_text(sq.subrange(pos + 1, i as int)));
                        assert(false);
                    }
                }
            }
            return None;
        }
        let b = s[i];
        if b == 34 {
            proof {
                assert(sq.subrange(pos as int, i + 1) =~= spec_ser_string(text@));
                assert forall|t: Seq<u8>, end: int|
                    #![trigger sq.subrange(pos as int, end), spec_ser_string(t)]
                    pos <= end <= sq.len() && sq.subrange(pos as int, end) == spec_ser_string(t)
                        && crate::level::wf_text(t) implies t == text@ && end == i + 1 by {
                    assert(spec_ser_string(t).len() == t.len() + 2);
                assert(end - pos == t.len() + 2);
                    assert(sq.subrange(pos as int, end)[end - 1 - pos] == sq[end - 1]);
                    assert(sq[end - 1] == 34);
                    if end - 1 < i {
                        assert(sq.subrange(pos + 1, i as int)[end - 1 - pos - 1] == sq[end - 1]);
                        assert(false);
                    }
                    if end - 1 > i {
                        assert(t[i - pos - 1] == sq.subrange(pos as int, end)[i - pos]);
                        assert(t[i - pos - 1] == sq[i as int]);
                        assert(false);
                    }
                    assert forall|k: int| 0 <= k < t.len() implies t[k] == sq.subrange(
                        pos + 1,
                        i as int,
                    )[k] by {
                        assert(sq.subrange(pos as int, end)[k + 1] == sq[pos + 1 + k]);
                        assert(spec_ser_string(t)[k + 1] == t[k]);
                    }
                    assert(t =~= sq.subrange(pos + 1, i as int));
                }
            }
            return Some((text, i + 1));
        }
        text.push(b);
        proof {
            assert(text@ =~= sq.subrange(pos + 1, i + 1));
        }
        i += 1;
    }
}

/// The keyword `true` or `false`.
pub open spec fn spec_ser_bool(b: bool) -> Seq<u8> {
    if b {
        seq![116u8, 114u8, 117u8, 101u8]
    } else {
        seq![102u8, 97u8, 108u8, 115u8, 101u8]
    }
}

/// The keyword `true`, as bytes.
pub fn lit_true() -> (v: Vec<u8>)
    ensures
        v@ == spec_ser_bool(true),
{
    let mut v: Vec<u8> = Vec::new();
    v.push(116);
    v.push(114);
    v.push(117);
    v.push(101);
    proof {
        assert(v@ =~= spec_ser_bool(true));
    }
    v
}

/// The keyword `false`, as bytes.
pub fn lit_false() -> (v: Vec<u8>)
    ensures
        v@ == spec_ser_bool(false),
{
    let mut v: Vec<u8> = Vec::new();
    v.push(102);
    v.push(97);
    v.push(108);
    v.push(115);
    v.push(101);
    proof {
        assert(v@ =~= spec_ser_bool(false));
    }
    v
}

/// Appends `true` or `false`.
pub fn ser_bool(out: &mut Vec<u8>, b: bool)
    ensures
        final(out)@ == old(out)@ + spec_ser_bool(b),
{
    let lit = if b {
        lit_true()
    } else {
        lit_false()
    };
    emit(out, &lit);
}

/// Reads `true` or `false` at `pos`.
pub fn parse_bool(s: &Vec<u8>, pos: usize) -> (r: Option<(bool, usize)>)
    ensures
        r matches Some(pr) ==> pos <= pr.1 <= s@.len() && s@.subrange(pos as int, pr.1 as int)
            == spec_ser_bool(pr.0),
        forall|b: bool, end: int|
            #![trigger s@.subrange(pos as int, end), spec_ser_bool(b)]
            pos <= end <= s@.len() && s@.subrange(pos as int, end) == spec_ser_bool(b) ==> (
            r matches Some(pr) && pr.0 == b && pr.1 == end),
{
    let ghost sq = s@;
    let t = lit_true();
    match expect(s, pos, &t) {
        Some(end) => {
            proof {
                assert forall|b: bool, end2: int|
                    #![trigger sq.subrange(pos as int, end2), spec_ser_bool(b)]
                    pos <= end2 <= sq.len() && sq.subrange(pos as int, end2) == spec_ser_bool(b)
                        implies b == true && end2 == end by {
                    assert(end2 - pos == spec_ser_bool(b).len());
                    if !b {
                        assert(sq.subrange(pos as int, end2)[0] == sq[pos as int]);
                        assert(sq.subrange(pos as int, end as int)[0] == sq[pos as int]);
                        assert(false);
                    }
                    assert(sq.subrange(pos as int, end2) =~= sq.subrange(pos as int, end as int));
                }
            }
            Some((true, end))
        },
        None => {
            let f = lit_false();
            match expect(s, pos, &f) {
                Some(end) => {
                    proof {
                        assert forall|b: bool, end2: int|
                            #![trigger sq.subrange(pos as int, end2), spec_ser_bool(b)]
                            pos <= end2 <= sq.len() && sq.subrange(pos as int, end2)
                                == spec_ser_bool(b) implies b == false && end2 == end by {
                            assert(end2 - pos == spec_ser_bool(b).len());
                            if b {
                                assert(sq.subrange(pos as int, end2) == sq.subrange(
                                    pos as int,
                                    pos + 4,
                                ));
                            }
                            assert(sq.subrange(pos as int, end2) =~= sq.subrange(
                                pos as int,
                                end as int,
                            ));
                        }
                    }
                    Some((false, end))
                },
                None => {
                    proof {
                        assert forall|b: bool, end2: int|
                            #![trigger sq.subrange(pos as int, end2), spec_ser_bool(b)]
                            pos <= end2 <= sq.len() && sq.subrange(pos as int, end2)
                                == spec_ser_bool(b) implies false by {
                            assert(end2 - pos == spec_ser_bool(b).len());
                            assert(sq.subrange(pos as int, end2) == sq.subrange(
                                pos as int,
                                pos + spec_ser_bool(b).len(),
                            ));
                        }
                    }
                    None
                },
            }
        },
    }
}

/// Whether byte `b` stands at `pos`. Consumes it when it does.
pub fn expect_byte(s: &Vec<u8>, pos: usize, b: u8) -> (r: Option<usize>)
    ensures
        r matches Some(end) ==> end == pos + 1 && pos < s@.len() && s@[pos as int] == b,
        r is None ==> !(pos < s@.len() && s@[pos as int] == b),
{
    if pos < s.len() && s[pos] == b {
        Some(pos + 1)
    } else {
        None
    }
}

/// A vector as `(x,y)`.
pub open spec fn spec_ser_vec2(v: crate::particle::Vec2I) -> Seq<u8> {
    seq![40u8] + spec_ser_i64(v.x) + seq![44u8] + spec_ser_i64(v.y) + seq![41u8]
}

/// Where the pieces of a serialized vector lie in `sq`.
proof fn lemma_vec2_parts(sq: Seq<u8>, pos: int, end: int, v: crate::particle::Vec2I)
    requires
        0 <= pos <= end <= sq.len(),
        sq.subrange(pos, end) == spec_ser_vec2(v),
    ensures
        ({
            let p1 = pos + 1;
            let p2 = p1 + spec_ser_i64(v.x).len();
            let p3 = p2 + 1;
            let p4 = p3 + spec_ser_i64(v.y).len();
            &&& p4 + 1 == end
            &&& sq[pos] == 40
            &&& sq.subrange(p1, p2) == spec_ser_i64(v.x)
            &&& sq[p2] == 44
            &&& sq.subrange(p3, p4) == spec_ser_i64(v.y)
            &&& sq[p4] == 41
        }),
{
    let a1 = spec_ser_i64(v.x);
    let a2 = spec_ser_i64(v.y);
    let rest1 = a1 + seq![44u8] + a2 + seq![41u8];
    assert(spec_ser_vec2(v) =~= seq![40u8] + rest1);
    lemma_prefix_split(sq, pos, end, seq![40u8], rest1);
    assert(sq.subrange(pos, pos + 1)[0] == sq[pos]);
    let rest2 = seq![44u8] + a2 + seq![41u8];
    assert(rest1 =~= a1 + rest2);
    lemma_prefix_split(sq, pos + 1, end, a1, rest2);
    let p2 = pos + 1 + a1.len();
    let rest3 = a2 + seq![41u8];
    assert(rest2 =~= seq![44u8] + rest3);
    lemma_prefix_split(sq, p2, end, seq![44u8], rest3);
    assert(sq.subrange(p2, p2 + 1)[0] == sq[p2]);
    lemma_prefix_split(sq, p2 + 1, end, a2, seq![41u8]);
    let p4 = p2 + 1 + a2.len();
    assert(sq.subrange(p4, end)[0] == sq[p4]);
}

/// Appends `v` as `(x,y)`.
pub fn ser_vec2(out: &mut Vec<u8>, v: &crate::particle::Vec2I)
    ensures
        final(out)@ == old(out)@ + spec_ser_vec2(*v),
{
    out.push(40);
    ser_i64(out, v.x);
    out.push(44);
    ser_i64(out, v.y);
    out.push(41);
    proof {
        assert(final(out)@ =~= old(out)@ + spec_ser_vec2(*v));
    }
}

/// Reads a vector `(x,y)` at `pos`.
pub fn parse_vec2(s: &Vec<u8>, pos: usize) -> (r: Option<(crate::particle::Vec2I, usize)>)
    ensures
        r matches Some(pr) ==> pos <= pr.1 <= s@.len() && s@.subrange(pos as int, pr.1 as int)
            == spec_ser_vec2(pr.0),
        forall|v: crate::particle::Vec2I, end: int|
            #![trigger s@.subrange(pos as int, end), spec_ser_vec2(v)]
            pos <= end <= s@.len() && s@.subrange(pos as int, end) == spec_ser_vec2(v) ==> (
            r matches Some(pr) && pr.0 == v && pr.1 == end),
{
    let ghost sq = s@;
    let r0 = expect_byte(s, pos, 40);
    proof {
        assert forall|v: crate::particle::Vec2I, end: int|
            #![trigger sq.subrange(pos as int, end), spec_ser_vec2(v)]
            pos <= end <= sq.len() && sq.subrange(pos as int, end) == spec_ser_vec2(v) implies (
        r0 matches Some(q) && q == pos + 1) by {
            lemma_vec2_parts(sq, pos as int, end, v);
        }
    }
    let p1 = match r0 {
        Some(p) => p,
        None => {
            return None;
        },
    };
    let r1 = parse_i64(s, p1);
    proof {
        assert forall|v: crate::particle::Vec2I, end: int|
            #![trigger sq.subrange(pos as int, end), spec_ser_vec2(v)]
            pos <= end <= sq.len() && sq.subrange(pos as int, end) == spec_ser_vec2(v) implies (
        r1 matches Some(q) && q.0 == v.x && q.1 == p1 + spec_ser_i64(v.x).len()) by {
            lemma_vec2_parts(sq, pos as int, end, v);
        }
    }
    let xp = match r1 {
        Some(q) => q,
        None => {
            return None;
        },
    };
    let x = xp.0;
    let p2 = xp.1;
    let r2 = expect_byte(s, p2, 44);
    proof {
        assert forall|v: crate::particle::Vec2I, end: int|
            #![trigger sq.subrange(pos as int, end), spec_ser_vec2(v)]
            pos <= end <= sq.len() && sq.subrange(pos as int, end) == spec_ser_vec2(v) implies (
        r2 matches Some(q) && q == p2 + 1 && x == v.x) by {
            lemma_vec2_parts(sq, pos as int, end, v);
        }
    }
    let p3 = match r2 {
        Some(p) => p,
        None => {
            return None;
        },
    };
    let r3 = parse_i64(s, p3);
    proof {
        assert forall|v: crate::particle::Vec2I, end: int|
            #![trigger sq.subrange(pos as int, end), spec_ser_vec2(v)]
            pos <= end <= sq.len() && sq.subrange(pos as int, end) == spec_ser_vec2(v) implies (
        r3 matches Some(q) && q.0 == v.y && q.1 == p3 + spec_ser_i64(v.y).len()) by {
            lemma_vec2_parts(sq, pos as int, end, v);
        }
    }
    let yp = match r3 {
        Some(q) => q,
        None => {
            return None;
        },
    };
    let y = yp.0;
    let p4 = yp.1;
    let r4 = expect_byte(s, p4, 41);
    proof {
        assert forall|v: crate::particle::Vec2I, end: int|
            #![trigger sq.subrange(pos as int, end), spec_ser_vec2(v)]
            pos <= end <= sq.len() && sq.subrange(pos as int, end) == spec_ser_vec2(v) implies (
        r4 matches Some(q) && q == p4 + 1 && end == p4 + 1 && y == v.y) by {
            lemma_vec2_parts(sq, pos as int, end, v);
        }
    }
    let p5 = match r4 {
        Some(p) => p,
        None => {
            return None;
        },
    };
    proof {
        lemma_subrange_cat(sq, pos as int, p1 as int, p5 as int);
        lemma_subrange_cat(sq, p1 as int, p2 as int, p5 as int);
        lemma_subrange_cat(sq, p2 as int, p3 as int, p5 as int);
        lemma_subrange_cat(sq, p3 as int, p4 as int, p5 as int);
        assert(sq.subrange(pos as int, p1 as int) =~= seq![40u8]);
        assert(sq.subrange(p2 as int, p3 as int) =~= seq![44u8]);
        assert(sq.subrange(p4 as int, p5 as int) =~= seq![41u8]);
        assert(sq.subrange(pos as int, p5 as int) =~= spec_ser_vec2(
            crate::particle::Vec2I { x, y },
        ));
    }
    Some((crate::particle::Vec2I { x, y }, p5))
}

/// A colour as `(r,g,b)`.
pub open spec fn spec_ser_color(c: crate::particle::ColorRgb) -> Seq<u8> {
    seq![40u8] + dec_digits(c.r as nat) + seq![44u8] + dec_digits(c.g as nat) + seq![44u8]
        + dec_digits(c.b as nat) + seq![41u8]
}

/// Where the pieces of a serialized colour lie in `sq`.
proof fn lemma_color_parts(sq: Seq<u8>, pos: int, end: int, c: crate::particle::ColorRgb)
    requires
        0 <= pos <= end <= sq.len(),
        sq.subrange(pos, end) == spec_ser_color(c),
    ensures
        ({
            let p1 = pos + 1;
            let p2 = p1 + dec_digits(c.r as nat).len();
            let p3 = p2 + 1;
            let p4 = p3 + dec_digits(c.g as nat).len();
            let p5 = p4 + 1;
            let p6 = p5 + dec_digits(c.b as nat).len();
            &&& p6 + 1 == end
            &&& sq[pos] == 40
            &&& sq.subrange(p1, p2) == dec_digits(c.r as nat)
            &&& sq[p2] == 44
            &&& sq.subrange(p3, p4) == dec_digits(c.g as nat)
            &&& sq[p4] == 44
            &&& sq.subrange(p5, p6) == dec_digits(c.b as nat)
            &&& sq[p6] == 41
        }),
{
    let a1 = dec_digits(c.r as nat);
    let a2 = dec_digits(c.g as nat);
    let a3 = dec_digits(c.b as nat);
    let rest1 = a1 + seq![44u8] + a2 + seq![44u8] + a3 + seq![41u8];
    assert(spec_ser_color(c) =~= seq![40u8] + rest1);
    lemma_prefix_split(sq, pos, end, seq![40u8], rest1);
    assert(sq.subrange(pos, pos + 1)[0] == sq[pos]);
    let rest2 = seq![44u8] + a2 + seq![44u8] + a3 + seq![41u8];
    assert(rest1 =~= a1 + rest2);
    lemma_prefix_split(sq, pos + 1, end, a1, rest2);
    let p2 = pos + 1 + a1.len();
    let rest3 = a2 + seq![44u8] + a3 + seq![41u8];
    assert(rest2 =~= seq![44u8] + rest3);
    lemma_prefix_split(sq, p2, end, seq![44u8], rest3);
    assert(sq.subrange(p2, p2 + 1)[0] == sq[p2]);
    let rest4 = seq![44u8] + a3 + seq![41u8];
    assert(rest3 =~= a2 + rest4);
    lemma_prefix_split(sq, p2 + 1, end, a2, rest4);
    let p4 = p2 + 1 + a2.len();
    let rest5 = a3 + seq![41u8];
    assert(rest4 =~= seq![44u8] + rest5);
    lemma_prefix_split(sq, p4, end, seq![44u8], rest5);
    assert(sq.subrange(p4, p4 + 1)[0] == sq[p4]);
    lemma_prefix_split(sq, p4 + 1, end, a3, seq![41u8]);
    let p6 = p4 + 1 + a3.len();
    assert(sq.subrange(p6, end)[0] == sq[p6]);
}

/// Appends `c` as `(r,g,b)`.
pub fn ser_color(out: &mut Vec<u8>, c: &crate::particle::ColorRgb)
    ensures
        final(out)@ == old(out)@ + spec_ser_color(*c),
{
    out.push(40);
    ser_u64(out, c.r as u64);
    out.push(44);
    ser_u64(out, c.g as u64);
    out.push(44);
    ser_u64(out, c.b as u64);
    out.push(41);
    proof {
        assert(final(out)@ =~= old(out)@ + spec_ser_color(*c));
    }
}

/// Reads a colour `(r,g,b)` at `pos`.
pub fn parse_color(s: &Vec<u8>, pos: usize) -> (r: Option<(crate::particle::ColorRgb, usize)>)
    ensures
        r matches Some(pr) ==> pos <= pr.1 <= s@.len() && s@.subrange(pos as int, pr.1 as int)
            == spec_ser_color(pr.0),
        forall|c: crate::particle::ColorRgb, end: int|
            #![trigger s@.subrange(pos as int, end), spec_ser_color(c)]
            pos <= end <= s@.len() && s@.subrange(pos as int, end) == spec_ser_color(c) ==> (
            r matches Some(pr) && pr.0 == c && pr.1 == end),
{
    let ghost sq = s@;
    let r0 = expect_byte(s, pos, 40);
    proof {
        assert forall|c: crate::particle::ColorRgb, end: int|
            #![trigger sq.subrange(pos as int, end), spec_ser_color(c)]
            pos <= end <= sq.len() && sq.subrange(pos as int, end) == spec_ser_color(c) implies (
        r0 matches Some(q) && q == pos + 1) by {
            lemma_color_parts(sq, pos as int, end, c);
        }
    }
    let p1 = match r0 {
        Some(p) => p,
        None => {
            return None;
        },
    };
    let r1 = parse_u64(s, p1);
    proof {
        assert forall|c: crate::particle::ColorRgb, end: int|
            #![trigger sq.subrange(pos as int, end), spec_ser_color(c)]
            pos <= end <= sq.len() && sq.subrange(pos as int, end) == spec_ser_color(c) implies (
        r1 matches Some(q) && q.0 == c.r && q.1 == p1 + dec_digits(c.r as nat).len()) by {
            lemma_color_parts(sq, pos as int, end, c);
            let m = c.r as u64;
            assert(m as nat == c.r as nat);
            assert(sq.subrange(p1 as int, p1 + dec_digits(c.r as nat).len()) == dec_digits(
                m as nat,
            ));
        }
    }
    let rv = match r1 {
        Some(q) => q,
        None => {
            return None;
        },
    };
    if rv.0 > 255 {
        return None;
    }
    let red = rv.0 as u8;
    let p2 = rv.1;
    let r2 = expect_byte(s, p2, 44);
    let p3 = match r2 {
        Some(p) => p,
        None => {
            proof {
                assert forall|c: crate::particle::ColorRgb, end: int|
                    #![trigger sq.subrange(pos as int, end), spec_ser_color(c)]
                    pos <= end <= sq.len() && sq.subrange(pos as int, end) == spec_ser_color(c)
                        implies false by {
                    lemma_color_parts(sq, pos as int, end, c);
                }
            }
            return None;
        },
    };
    let r3 = parse_u64(s, p3);
    proof {
        assert forall|c: crate::particle::ColorRgb, end: int|
            #![trigger sq.subrange(pos as int, end), spec_ser_color(c)]
            pos <= end <= sq.len() && sq.subrange(pos as int, end) == spec_ser_color(c) implies (
        r3 matches Some(q) && q.0 == c.g && q.1 == p3 + dec_digits(c.g as nat).len()) by {
            lemma_color_parts(sq, pos as int, end, c);
            let m = c.g as u64;
            assert(m as nat == c.g as nat);
            assert(sq.subrange(p3 as int, p3 + dec_digits(c.g as nat).len()) == dec_digits(
                m as nat,
            ));
        }
    }
    let gv = match r3 {
        Some(q) => q,
        None => {
            return None;
        },
    };
    if gv.0 > 255 {
        return None;
    }
    let green = gv.0 as u8;
    let p4 = gv.1;
    let r4 = expect_byte(s, p4, 44);
    let p5 = match r4 {
        Some(p) => p,
        None => {
            proof {
                assert forall|c: crate::particle::ColorRgb, end: int|
                    #![trigger sq.subrange(pos as int, end), spec_ser_color(c)]
                    pos <= end <= sq.len() && sq.subrange(pos as int, end) == spec_ser_color(c)
                        implies false by {
                    lemma_color_parts(sq, pos as int, end, c);
                }
            }
            return None;
        },
    };
    let r5 = parse_u64(s, p5);
    proof {
        assert forall|c: crate::particle::ColorRgb, end: int|
            #![trigger sq.subrange(pos as int, end), spec_ser_color(c)]
            pos <= end <= sq.len() && sq.subrange(pos as int, end) == spec_ser_color(c) implies (
        r5 matches Some(q) && q.0 == c.b && q.1 == p5 + dec_digits(c.b as nat).len()) by {
            lemma_color_parts(sq, pos as int, end, c);
            let m = c.b as u64;
            assert(m as nat == c.b as nat);
            assert(sq.subrange(p5 as int, p5 + dec_digits(c.b as nat).len()) == dec_digits(
                m as nat,
            ));
        }
    }
    let bv = match r5 {
        Some(q) => q,
        None => {
            return None;
        },
    };
    if bv.0 > 255 {
        return None;
    }
    let blue = bv.0 as u8;
    let p6 = bv.1;
    let r6 = expect_byte(s, p6, 41);
    proof {
        assert forall|c: crate::particle::ColorRgb, end: int|
            #![trigger sq.subrange(pos as int, end), spec_ser_color(c)]
            pos <= end <= sq.len() && sq.subrange(pos as int, end) == spec_ser_color(c) implies (
        r6 matches Some(q) && q == p6 + 1 && end == p6 + 1 && red == c.r && green == c.g && blue
            == c.b) by {
            lemma_color_parts(sq, pos as int, end, c);
        }
    }
    let p7 = match r6 {
        Some(p) => p,
        None => {
            return None;
        },
    };
    let color = crate::particle::ColorRgb { r: red, g: green, b: blue };
    proof {
        lemma_subrange_cat(sq, pos as int, p1 as int, p7 as int);
        lemma_subrange_cat(sq, p1 as int, p2 as int, p7 as int);
        lemma_subrange_cat(sq, p2 as int, p3 as int, p7 as int);
        lemma_subrange_cat(sq, p3 as int, p4 as int, p7 as int);
        lemma_subrange_cat(sq, p4 as int, p5 as int, p7 as int);
        lemma_subrange_cat(sq, p5 as int, p6 as int, p7 as int);
        assert(sq.subrange(pos as int, p1 as int) =~= seq![40u8]);
        assert(sq.subrange(p2 as int, p3 as int) =~= seq![44u8]);
        assert(sq.subrange(p4 as int, p5 as int) =~= seq![44u8]);
        assert(sq.subrange(p6 as int, p7 as int) =~= seq![41u8]);
        assert(red as nat == red as u64 as nat && green as nat == green as u64 as nat && blue as nat
            == blue as u64 as nat);
        assert(sq.subrange(pos as int, p7 as int) =~= spec_ser_color(color));
    }
    Some((color, p7))
}

/// A particle kind as its name.
pub open spec fn spec_ser_kind(k: crate::particle::ParticleKind) -> Seq<u8> {
    match k {
        crate::particle::ParticleKind::Normal => seq![78u8, 111u8, 114u8, 109u8, 97u8, 108u8],
        crate::particle::ParticleKind::Killer => seq![75u8, 105u8, 108u8, 108u8, 101u8, 114u8],
    }
}

/// The keyword `Normal`, as bytes.
pub fn lit_normal() -> (v: Vec<u8>)
    ensures
        v@ == spec_ser_kind(crate::particle::ParticleKind::Normal),
{
    let mut v: Vec<u8> = Vec::new();
    v.push(78);
    v.push(111);
    v.push(114);
    v.push(109);
    v.push(97);
    v.push(108);
    proof {
        assert(v@ =~= spec_ser_kind(crate::particle::ParticleKind::Normal));
    }
    v
}

/// The keyword `Killer`, as bytes.
pub fn lit_killer() -> (v: Vec<u8>)
    ensures
        v@ == spec_ser_kind(crate::particle::ParticleKind::Killer),
{
    let mut v: Vec<u8> = Vec::new();
    v.push(75);
    v.push(105);
    v.push(108);
    v.push(108);
    v.push(101);
    v.push(114);
    proof {
        assert(v@ =~= spec_ser_kind(crate::particle::ParticleKind::Killer));
    }
    v
}

/// Appends the kind's name.
pub fn ser_kind(out: &mut Vec<u8>, k: crate::particle::ParticleKind)
    ensures
        final(out)@ == old(out)@ + spec_ser_kind(k),
{
    let lit = match k {
        crate::particle::ParticleKind::Normal => lit_normal(),
        crate::particle::ParticleKind::Killer => lit_killer(),
    };
    emit(out, &lit);
}

/// Reads `Normal` or `Killer` at `pos`.
pub fn parse_kind(s: &Vec<u8>, pos: usize) -> (r: Option<(crate::particle::ParticleKind, usize)>)
    ensures
        r matches Some(pr) ==> pos <= pr.1 <= s@.len() && s@.subrange(pos as int, pr.1 as int)
            == spec_ser_kind(pr.0),
        forall|k: crate::particle::ParticleKind, end: int|
            #![trigger s@.subrange(pos as int, end), spec_ser_kind(k)]
            pos <= end <= s@.len() && s@.subrange(pos as int, end) == spec_ser_kind(k) ==> (
            r matches Some(pr) && pr.0 == k && pr.1 == end),
{
    let ghost sq = s@;
    let normal = lit_normal();
    match expect(s, pos, &normal) {
        Some(end) => {
            proof {
                assert forall|k: crate::particle::ParticleKind, end2: int|
                    #![trigger sq.subrange(pos as int, end2), spec_ser_kind(k)]
                    pos <= end2 <= sq.len() && sq.subrange(pos as int, end2) == spec_ser_kind(k)
                        implies k == crate::particle::ParticleKind::Normal && end2 == end by {
                    assert(end2 - pos == spec_ser_kind(k).len());
                    if k is Killer {
                        assert(sq.subrange(pos as int, end2)[0] == sq[pos as int]);
                        assert(sq.subrange(pos as int, end as int)[0] == sq[pos as int]);
                        assert(false);
                    }
                    assert(sq.subrange(pos as int, end2) =~= sq.subrange(pos as int, end as int));
                }
            }
            Some((crate::particle::ParticleKind::Normal, end))
        },
        None => {
            let killer = lit_killer();
            match expect(s, pos, &killer) {
                Some(end) => {
                    proof {
                        assert forall|k: crate::particle::ParticleKind, end2: int|
                            #![trigger sq.subrange(pos as int, end2), spec_ser_kind(k)]
                            pos <= end2 <= sq.len() && sq.subrange(pos as int, end2)
                                == spec_ser_kind(k) implies k
                            == crate::particle::ParticleKind::Killer && end2 == end by {
                            assert(end2 - pos == spec_ser_kind(k).len());
                            if k is Normal {
                                assert(sq.subrange(pos as int, end2) == sq.subrange(
                                    pos as int,
                                    pos + 6,
                                ));
                            }
                            assert(sq.subrange(pos as int, end2) =~= sq.subrange(
                                pos as int,
                                end as int,
                            ));
                        }
                    }
                    Some((crate::particle::ParticleKind::Killer, end))
                },
                None => {
                    proof {
                        assert forall|k: crate::particle::ParticleKind, end2: int|
                            #![trigger sq.subrange(pos as int, end2), spec_ser_kind(k)]
                            pos <= end2 <= sq.len() && sq.subrange(pos as int, end2)
                                == spec_ser_kind(k) implies false by {
                            assert(end2 - pos == spec_ser_kind(k).len());
                            assert(sq.subrange(pos as int, end2) == sq.subrange(
                                pos as int,
                                pos + 6,
                            ));
                        }
                    }
                    None
                },
            }
        },
    }
}

/// A particle tree as `(kind,radius,color,velocity,[subparticles])`.
pub open spec fn spec_ser_particle(p: crate::particle::Particle) -> Seq<u8>
    decreases p, 1int,
{
    seq![40u8] + (spec_ser_kind(p.kind) + (seq![44u8] + (dec_digits(p.radius as nat) + (seq![44u8]
        + (spec_ser_color(p.color) + (seq![44u8] + (spec_ser_vec2(p.initial_velocity) + (seq![
        44u8,
    ] + (seq![91u8] + (spec_ser_plist(p.subparticles@) + (seq![93u8] + seq![41u8])))))))))))
}

/// A forest of particle trees, comma separated.
pub open spec fn spec_ser_plist(l: Seq<crate::particle::Particle>) -> Seq<u8>
    decreases l, 0int,
{
    if l.len() == 0 {
        Seq::empty()
    } else if l.len() == 1 {
        spec_ser_particle(l[0])
    } else {
        spec_ser_particle(l[0]) + (seq![44u8] + spec_ser_plist(l.drop_first()))
    }
}

/// Where the pieces of a serialized particle lie in `sq`.
proof fn lemma_particle_parts(sq: Seq<u8>, pos: int, end: int, p: crate::particle::Particle)
    requires
        0 <= pos <= end <= sq.len(),
        sq.subrange(pos, end) == spec_ser_particle(p),
    ensures
        ({
            let p1 = pos + 1;
            let p2 = p1 + spec_ser_kind(p.kind).len();
            let p3 = p2 + 1;
            let p4 = p3 + dec_digits(p.radius as nat).len();
            let p5 = p4 + 1;
            let p6 = p5 + spec_ser_color(p.color).len();
            let p7 = p6 + 1;
            let p8 = p7 + spec_ser_vec2(p.initial_velocity).len();
            let p9 = p8 + 1;
            let p10 = p9 + 1;
            let p11 = p10 + spec_ser_plist(p.subparticles@).len();
            let p12 = p11 + 1;
            &&& p12 + 1 == end
            &&& sq[pos] == 40
            &&& sq.subrange(p1, p2) == spec_ser_kind(p.kind)
            &&& sq[p2] == 44
            &&& sq.subrange(p3, p4) == dec_digits(p.radius as nat)
            &&& sq[p4] == 44
            &&& sq.subrange(p5, p6) == spec_ser_color(p.color)
            &&& sq[p6] == 44
            &&& sq.subrange(p7, p8) == spec_ser_vec2(p.initial_velocity)
            &&& sq[p8] == 44
            &&& sq[p9] == 91
            &&& sq.subrange(p10, p11) == spec_ser_plist(p.subparticles@)
            &&& sq[p11] == 93
            &&& sq[p12] == 41
        }),
{
    let t1 = spec_ser_kind(p.kind) + (seq![44u8] + (dec_digits(p.radius as nat) + (seq![44u8] + (
    spec_ser_color(p.color) + (seq![44u8] + (spec_ser_vec2(p.initial_velocity) + (seq![44u8] + (
    seq![91u8] + (spec_ser_plist(p.subparticles@) + (seq![93u8] + seq![41u8]))))))))));
    lemma_prefix_split(sq, pos, end, seq![40u8], t1);
    assert(sq.subrange(pos, pos + 1)[0] == sq[pos]);
    let p1 = pos + 1;
    let t2 = seq![44u8] + (dec_digits(p.radius as nat) + (seq![44u8] + (spec_ser_color(p.color) + (
    seq![44u8] + (spec_ser_vec2(p.initial_velocity) + (seq![44u8] + (seq![91u8] + (spec_ser_plist(
        p.subparticles@,
    ) + (seq![93u8] + seq![41u8])))))))));
    lemma_prefix_split(sq, p1, end, spec_ser_kind(p.kind), t2);
    let p2 = p1 + spec_ser_kind(p.kind).len();
    let t3 = dec_digits(p.radius as nat) + (seq![44u8] + (spec_ser_color(p.color) + (seq![44u8] + (
    spec_ser_vec2(p.initial_velocity) + (seq![44u8] + (seq![91u8] + (spec_ser_plist(
        p.subparticles@,
    ) + (seq![93u8] + seq![41u8]))))))));
    lemma_prefix_split(sq, p2, end, seq![44u8], t3);
    assert(sq.subrange(p2, p2 + 1)[0] == sq[p2]);
    let p3 = p2 + 1;
    let t4 = seq![44u8] + (spec_ser_color(p.color) + (seq![44u8] + (spec_ser_vec2(
        p.initial_velocity,
    ) + (seq![44u8] + (seq![91u8] + (spec_ser_plist(p.subparticles@) + (seq![93u8] + seq![
        41u8,
    ])))))));
    lemma_prefix_split(sq, p3, end, dec_digits(p.radius as nat), t4);
    let p4 = p3 + dec_digits(p.radius as nat).len();
    let t5 = spec_ser_color(p.color) + (seq![44u8] + (spec_ser_vec2(p.initial_velocity) + (seq![
        44u8,
    ] + (seq![91u8] + (spec_ser_plist(p.subparticles@) + (seq![93u8] + seq![41u8]))))));
    lemma_prefix_split(sq, p4, end, seq![44u8], t5);
    assert(sq.subrange(p4, p4 + 1)[0] == sq[p4]);
    let p5 = p4 + 1;
    let t6 = seq![44u8] + (spec_ser_vec2(p.initial_velocity) + (seq![44u8] + (seq![91u8] + (
    spec_ser_plist(p.subparticles@) + (seq![93u8] + seq![41u8])))));
    lemma_prefix_split(sq, p5, end, spec_ser_color(p.color), t6);
    let p6 = p5 + spec_ser_color(p.color).len();
    let t7 = spec_ser_vec2(p.initial_velocity) + (seq![44u8] + (seq![91u8] + (spec_ser_plist(
        p.subparticles@,
    ) + (seq![93u8] + seq![41u8]))));
    lemma_prefix_split(sq, p6, end, seq![44u8], t7);
    assert(sq.subrange(p6, p6 + 1)[0] == sq[p6]);
    let p7 = p6 + 1;
    let t8 = seq![44u8] + (seq![91u8] + (spec_ser_plist(p.subparticles@) + (seq![93u8] + seq![
        41u8,
    ])));
    lemma_prefix_split(sq, p7, end, spec_ser_vec2(p.initial_velocity), t8);
    let p8 = p7 + spec_ser_vec2(p.initial_velocity).len();
    let t9 = seq![91u8] + (spec_ser_plist(p.subparticles@) + (seq![93u8] + seq![41u8]));
    lemma_prefix_split(sq, p8, end, seq![44u8], t9);
    assert(sq.subrange(p8, p8 + 1)[0] == sq[p8]);
    let p9 = p8 + 1;
    let t10 = spec_ser_plist(p.subparticles@) + (seq![93u8] + seq![41u8]);
    lemma_prefix_split(sq, p9, end, seq![91u8], t10);
    assert(sq.subrange(p9, p9 + 1)[0] == sq[p9]);
    let p10 = p9 + 1;
    let t11 = seq![93u8] + seq![41u8];
    lemma_prefix_split(sq, p10, end, spec_ser_plist(p.subparticles@), t11);
    let p11 = p10 + spec_ser_plist(p.subparticles@).len();
    lemma_prefix_split(sq, p11, end, seq![93u8], seq![41u8]);
    assert(sq.subrange(p11, p11 + 1)[0] == sq[p11]);
    let p12 = p11 + 1;
    assert(sq.subrange(p12, end)[0] == sq[p12]);
}

/// Appends the particle tree.
#[verifier::rlimit(100)]
#[verifier::spinoff_prover]
pub fn ser_particle(out: &mut Vec<u8>, p: &crate::particle::Particle)
    ensures
        final(out)@ == old(out)@ + spec_ser_particle(*p),
    decreases *p, 1int,
{
    out.push(40);
    ser_kind(out, p.kind);
    out.push(44);
    ser_u64(out, p.radius);
    out.push(44);
    ser_color(out, &p.color);
    out.push(44);
    ser_vec2(out, &p.initial_velocity);
    out.push(44);
    out.push(91);
    proof {
        assert(p.subparticles@.subrange(0, p.subparticles@.len() as int) =~= p.subparticles@);
        assert(decreases_to!(*p => p.subparticles@));
    }
    ser_plist_from(out, &p.subparticles, 0);
    out.push(93);
    out.push(41);
    proof {
        assert(final(out)@ =~= old(out)@ + spec_ser_particle(*p));
    }
}

/// Appends the forest `list[from..]`, comma separated.
pub fn ser_plist_from(out: &mut Vec<u8>, list: &Vec<crate::particle::Particle>, from: usize)
    requires
        from <= list@.len(),
    ensures
        final(out)@ == old(out)@ + spec_ser_plist(
            list@.subrange(from as int, list@.len() as int),
        ),
    decreases list@.subrange(from as int, list@.len() as int), 0int,
{
    let n = list.len();
    if from >= n {
        proof {
            assert(final(out)@ =~= old(out)@ + spec_ser_plist(
                list@.subrange(from as int, n as int),
            ));
        }
        return ;
    }
    proof {
        assert(list@.subrange(from as int, n as int)[0] == list@[from as int]);
    }
    ser_particle(out, &list[from]);
    if from + 1 < n {
        out.push(44);
        proof {
            assert(list@.subrange(from as int, n as int).drop_first() =~= list@.subrange(
                from + 1,
                n as int,
            ));
            assert(decreases_to!(list@.subrange(from as int, n as int) => list@.subrange(from as int, n as int).drop_first()));
        }
        ser_plist_from(out, list, from + 1);
        proof {
            assert(final(out)@ =~= old(out)@ + spec_ser_plist(
                list@.subrange(from as int, n as int),
            ));
        }
    } else {
        proof {
            assert(final(out)@ =~= old(out)@ + spec_ser_plist(
                list@.subrange(from as int, n as int),
            ));
        }
    }
}

/// Reads a particle tree at `pos`.
#[verifier::rlimit(100)]
#[verifier::spinoff_prover]
pub fn parse_particle(s: &Vec<u8>, pos: usize) -> (r: Option<
    (crate::particle::Particle, usize),
>)
    ensures
        r matches Some(pr) ==> pos < pr.1 <= s@.len() && s@.subrange(pos as int, pr.1 as int)
            == spec_ser_particle(pr.0),
        forall|p: crate::particle::Particle, end: int|
            #![trigger s@.subrange(pos as int, end), spec_ser_particle(p)]
            pos <= end <= s@.len() && s@.subrange(pos as int, end) == spec_ser_particle(p) ==> (
            r matches Some(pr) && crate::particle::same_particle(p, pr.0) && pr.1 == end),
    decreases s@.len() - pos, 0int,
{
    let ghost sq = s@;
    let r0 = expect_byte(s, pos, 40);
    proof {
        assert forall|p: crate::particle::Particle, end: int|
            #![trigger sq.subrange(pos as int, end), spec_ser_particle(p)]
            pos <= end <= sq.len() && sq.subrange(pos as int, end) == spec_ser_particle(p) implies (
        r0 matches Some(q) && q == pos + 1) by {
            lemma_particle_parts(sq, pos as int, end, p);
        }
    }
    let p1 = match r0 {
        Some(q) => q,
        None => {
            return None;
        },
    };
    let r1 = parse_kind(s, p1);
    proof {
        assert forall|p: crate::particle::Particle, end: int|
            #![trigger sq.subrange(pos as int, end), spec_ser_particle(p)]
            pos <= end <= sq.len() && sq.subrange(pos as int, end) == spec_ser_particle(p) implies (
        r1 matches Some(q) && q.0 == p.kind && q.1 == p1 + spec_ser_kind(p.kind).len()) by {
            lemma_particle_parts(sq, pos as int, end, p);
        }
    }
    let kq = match r1 {
        Some(q) => q,
        None => {
            return None;
        },
    };
    let kind = kq.0;
    let p2 = kq.1;
    let r2 = expect_byte(s, p2, 44);
    let p3 = match r2 {
        Some(q) => q,
        None => {
            proof {
                assert forall|p: crate::particle::Particle, end: int|
                    #![trigger sq.subrange(pos as int, end), spec_ser_particle(p)]
                    pos <= end <= sq.len() && sq.subrange(pos as int, end) == spec_ser_particle(p)
                        implies false by {
                    lemma_particle_parts(sq, pos as int, end, p);
                }
            }
            return None;
        },
    };
    let r3 = parse_u64(s, p3);
    proof {
        assert forall|p: crate::particle::Particle, end: int|
            #![trigger sq.subrange(pos as int, end), spec_ser_particle(p)]
            pos <= end <= sq.len() && sq.subrange(pos as int, end) == spec_ser_particle(p) implies (
        r3 matches Some(q) && q.0 == p.radius && q.1 == p3 + dec_digits(p.radius as nat).len()) by {
            lemma_particle_parts(sq, pos as int, end, p);
        }
    }
    let rq = match r3 {
        Some(q) => q,
        None => {
            return None;
        },
    };
    let radius = rq.0;
    let p4 = rq.1;
    let r4 = expect_byte(s, p4, 44);
    let p5 = match r4 {
        Some(q) => q,
        None => {
            proof {
                assert forall|p: crate::particle::Particle, end: int|
                    #![trigger sq.subrange(pos as int, end), spec_ser_particle(p)]
                    pos <= end <= sq.len() && sq.subrange(pos as int, end) == spec_ser_particle(p)
                        implies false by {
                    lemma_particle_parts(sq, pos as int, end, p);
                }
            }
            return None;
        },
    };
    let r5 = parse_color(s, p5);
    proof {
        assert forall|p: crate::particle::Particle, end: int|
            #![trigger sq.subrange(pos as int, end), spec_ser_particle(p)]
            pos <= end <= sq.len() && sq.subrange(pos as int, end) == spec_ser_particle(p) implies (
        r5 matches Some(q) && q.0 == p.color && q.1 == p5 + spec_ser_color(p.color).len()) by {
            lemma_particle_parts(sq, pos as int, end, p);
        }
    }
    let cq = match r5 {
        Some(q) => q,
        None => {
            return None;
        },
    };
    let color = cq.0;
    let p6 = cq.1;
    let r6 = expect_byte(s, p6, 44);
    let p7 = match r6 {
        Some(q) => q,
        None => {
            proof {
                assert forall|p: crate::particle::Particle, end: int|
                    #![trigger sq.subrange(pos as int, end), spec_ser_particle(p)]
                    pos <= end <= sq.len() && sq.subrange(pos as int, end) == spec_ser_particle(p)
                        implies false by {
                    lemma_particle_parts(sq, pos as int, end, p);
                }
            }
            return None;
        },
    };
    let r7 = parse_vec2(s, p7);
    proof {
        assert forall|p: crate::particle::Particle, end: int|
            #![trigger sq.subrange(pos as int, end), spec_ser_particle(p)]
            pos <= end <= sq.len() && sq.subrange(pos as int, end) == spec_ser_particle(p) implies (
        r7 matches Some(q) && q.0 == p.initial_velocity && q.1 == p7 + spec_ser_vec2(
            p.initial_velocity,
        ).len()) by {
            lemma_particle_parts(sq, pos as int, end, p);
        }
    }
    let vq = match r7 {
        Some(q) => q,
        None => {
            return None;
        },
    };
    let velocity = vq.0;
    let p8 = vq.1;
    let r8 = expect_byte(s, p8, 44);
    let p9 = match r8 {
        Some(q) => q,
        None => {
            proof {
                assert forall|p: crate::particle::Particle, end: int|
                    #![trigger sq.subrange(pos as int, end), spec_ser_particle(p)]
                    pos <= end <= sq.len() && sq.subrange(pos as int, end) == spec_ser_particle(p)
                        implies false by {
                    lemma_particle_parts(sq, pos as int, end, p);
                }
            }
            return None;
        },
    };
    let r9 = expect_byte(s, p9, 91);
    let p10 = match r9 {
        Some(q) => q,
        None => {
            proof {
                assert forall|p: crate::particle::Particle, end: int|
                    #![trigger sq.subrange(pos as int, end), spec_ser_particle(p)]
                    pos <= end <= sq.len() && sq.subrange(pos as int, end) == spec_ser_particle(p)
                        implies false by {
                    lemma_particle_parts(sq, pos as int, end, p);
                }
            }
            return None;
        },
    };
    let r10 = parse_plist(s, p10);
    proof {
        assert forall|p: crate::particle::Particle, end: int|
            #![trigger sq.subrange(pos as int, end), spec_ser_particle(p)]
            pos <= end <= sq.len() && sq.subrange(pos as int, end) == spec_ser_particle(p) implies (
        r10 matches Some(q) && crate::particle::same_particle_seq(p.subparticles@, q.0@) && q.1
            == p10 + spec_ser_plist(p.subparticles@).len()) by {
            lemma_particle_parts(sq, pos as int, end, p);
        }
    }
    let lq = match r10 {
        Some(q) => q,
        None => {
            return None;
        },
    };
    let subparticles = lq.0;
    let p11 = lq.1;
    let r11 = expect_byte(s, p11, 93);
    let p12 = match r11 {
        Some(q) => q,
        None => {
            proof {
                assert forall|p: crate::particle::Particle, end: int|
                    #![trigger sq.subrange(pos as int, end), spec_ser_particle(p)]
                    pos <= end <= sq.len() && sq.subrange(pos as int, end) == spec_ser_particle(p)
                        implies false by {
                    lemma_particle_parts(sq, pos as int, end, p);
                }
            }
            return None;
        },
    };
    let r12 = expect_byte(s, p12, 41);
    proof {
        assert forall|p: crate::particle::Particle, end: int|
            #![trigger sq.subrange(pos as int, end), spec_ser_particle(p)]
            pos <= end <= sq.len() && sq.subrange(pos as int, end) == spec_ser_particle(p) implies (
        r12 matches Some(q) && q == p12 + 1 && end == p12 + 1 && kind == p.kind && radius == p.radius
            && color == p.color && velocity == p.initial_velocity
            && crate::particle::same_particle_seq(p.subparticles@, subparticles@)) by {
            lemma_particle_parts(sq, pos as int, end, p);
        }
    }
    let p13 = match r12 {
        Some(q) => q,
        None => {
            return None;
        },
    };
    let built = crate::particle::Particle { kind, radius, color, initial_velocity: velocity, subparticles };
    proof {
        lemma_subrange_cat(sq, pos as int, p1 as int, p13 as int);
        lemma_subrange_cat(sq, p1 as int, p2 as int, p13 as int);
        lemma_subrange_cat(sq, p2 as int, p3 as int, p13 as int);
        lemma_subrange_cat(sq, p3 as int, p4 as int, p13 as int);
        lemma_subrange_cat(sq, p4 as int, p5 as int, p13 as int);
        lemma_subrange_cat(sq, p5 as int, p6 as int, p13 as int);
        lemma_subrange_cat(sq, p6 as int, p7 as int, p13 as int);
        lemma_subrange_cat(sq, p7 as int, p8 as int, p13 as int);
        lemma_subrange_cat(sq, p8 as int, p9 as int, p13 as int);
        lemma_subrange_cat(sq, p9 as int, p10 as int, p13 as int);
        lemma_subrange_cat(sq, p10 as int, p11 as int, p13 as int);
        lemma_subrange_cat(sq, p11 as int, p12 as int, p13 as int);
        assert(sq.subrange(pos as int, p1 as int) =~= seq![40u8]);
        assert(sq.subrange(p2 as int, p3 as int) =~= seq![44u8]);
        assert(sq.subrange(p4 as int, p5 as int) =~= seq![44u8]);
        assert(sq.subrange(p6 as int, p7 as int) =~= seq![44u8]);
        assert(sq.subrange(p8 as int, p9 as int) =~= seq![44u8]);
        assert(sq.subrange(p9 as int, p10 as int) =~= seq![91u8]);
        assert(sq.subrange(p11 as int, p12 as int) =~= seq![93u8]);
        assert(sq.subrange(p12 as int, p13 as int) =~= seq![41u8]);
        assert(sq.subrange(pos as int, p13 as int) =~= spec_ser_particle(built));
    }
    Some((built, p13))
}

/// Reads a comma-separated forest at `pos`, up to (not including) the
/// closing bracket.
pub fn parse_plist(s: &Vec<u8>, pos: usize) -> (r: Option<
    (Vec<crate::particle::Particle>, usize),
>)
    ensures
        r matches Some(pr) ==> pos <= pr.1 <= s@.len() && s@.subrange(pos as int, pr.1 as int)
            == spec_ser_plist(pr.0@),
        forall|l: Seq<crate::particle::Particle>, end: int|
            #![trigger s@.subrange(pos as int, end), spec_ser_plist(l)]
            pos <= end < s@.len() && s@.subrange(pos as int, end) == spec_ser_plist(l) && s@[end]
                == 93 ==> (r matches Some(pr) && crate::particle::same_particle_seq(l, pr.0@)
                && pr.1 == end),
    decreases s@.len() - pos, 1int,
{
    let ghost sq = s@;
    let n = s.len();
    if pos < n && s[pos] == 93 {
        let empty: Vec<crate::particle::Particle> = Vec::new();
        proof {
            assert(sq.subrange(pos as int, pos as int) =~= spec_ser_plist(empty@));
            assert forall|l: Seq<crate::particle::Particle>, end: int|
                #![trigger sq.subrange(pos as int, end), spec_ser_plist(l)]
                pos <= end < sq.len() && sq.subrange(pos as int, end) == spec_ser_plist(l)
                    && sq[end] == 93 implies l.len() == 0 && end == pos by {
                if l.len() > 0 {
                    assert(spec_ser_plist(l)[0] == spec_ser_particle(l[0])[0]);
                    assert(spec_ser_particle(l[0])[0] == 40);
                    assert(sq.subrange(pos as int, end)[0] == sq[pos as int]);
                    assert(false);
                }
            }
        }
        return Some((empty, pos));
    }
    let r1 = parse_particle(s, pos);
    proof {
        assert forall|l: Seq<crate::particle::Particle>, end: int|
            #![trigger sq.subrange(pos as int, end), spec_ser_plist(l)]
            pos <= end < sq.len() && sq.subrange(pos as int, end) == spec_ser_plist(l) && sq[end]
                == 93 implies (l.len() > 0 && (r1 matches Some(q)
            && crate::particle::same_particle(l[0], q.0) && (l.len() == 1 ==> q.1 == end) && (l.len()
                > 1 ==> q.1 < end && sq.subrange(pos as int, q.1 as int) == spec_ser_particle(l[0])
                && sq[q.1 as int] == 44 && sq.subrange(q.1 + 1, end) == spec_ser_plist(
                l.drop_first(),
            )))) by {
            if l.len() == 0 {
                assert(Seq::<u8>::empty().len() == 0);
                assert(end == pos);
                assert(sq[pos as int] == 93);
            } else if l.len() == 1 {
                assert(spec_ser_plist(l) == spec_ser_particle(l[0]));
            } else {
                lemma_prefix_split(
                    sq,
                    pos as int,
                    end,
                    spec_ser_particle(l[0]),
                    seq![44u8] + spec_ser_plist(l.drop_first()),
                );
                let q1 = pos + spec_ser_particle(l[0]).len();
                lemma_prefix_split(sq, q1, end, seq![44u8], spec_ser_plist(l.drop_first()));
                assert(sq.subrange(q1, q1 + 1)[0] == sq[q1]);
            }
        }
    }
    let fq = match r1 {
        Some(q) => q,
        None => {
            return None;
        },
    };
    let first = fq.0;
    let q1 = fq.1;
    if q1 < n && s[q1] == 44 {
        let r2 = parse_plist(s, q1 + 1);
        proof {
            assert forall|l: Seq<crate::particle::Particle>, end: int|
                #![trigger sq.subrange(pos as int, end), spec_ser_plist(l)]
                pos <= end < sq.len() && sq.subrange(pos as int, end) == spec_ser_plist(l)
                    && sq[end] == 93 implies (l.len() > 1 && (r2 matches Some(q)
                && crate::particle::same_particle_seq(l.drop_first(), q.0@) && q.1 == end)) by {
                if l.len() == 1 {
                    assert(sq[q1 as int] == 93);
                }
            }
        }
        let rq = match r2 {
            Some(q) => q,
            None => {
                return None;
            },
        };
        let mut rest = rq.0;
        let end2 = rq.1;
        if rest.len() == 0 {
            // "p," followed by the closing bracket is not canonical.
            proof {
                assert forall|l: Seq<crate::particle::Particle>, end: int|
                    #![trigger sq.subrange(pos as int, end), spec_ser_plist(l)]
                    pos <= end < sq.len() && sq.subrange(pos as int, end) == spec_ser_plist(l)
                        && sq[end] == 93 implies false by {
                    assert(crate::particle::same_particle_seq(l.drop_first(), rest@));
                }
            }
            return None;
        }
        rest.insert(0, first);
        proof {
            assert(rest@.drop_first() =~= rq.0@);
            assert(sq.subrange(pos as int, end2 as int) =~= spec_ser_plist(rest@)) by {
                lemma_subrange_cat(sq, pos as int, q1 as int, end2 as int);
                lemma_subrange_cat(sq, q1 as int, q1 + 1, end2 as int);
                assert(sq.subrange(q1 as int, q1 + 1) =~= seq![44u8]);
            }
            assert forall|l: Seq<crate::particle::Particle>, end: int|
                #![trigger sq.subrange(pos as int, end), spec_ser_plist(l)]
                pos <= end < sq.len() && sq.subrange(pos as int, end) == spec_ser_plist(l)
                    && sq[end] == 93 implies crate::particle::same_particle_seq(l, rest@) && end
                == end2 by {
                assert(crate::particle::same_particle_seq(l.drop_first(), rest@.drop_first()));
                assert forall|i: int| 0 <= i < l.len() implies crate::particle::same_particle(
                    #[trigger] l[i],
                    rest@[i],
                ) by {
                    if i > 0 {
                        assert(l.drop_first()[i - 1] == l[i]);
                        assert(rest@.drop_first()[i - 1] == rest@[i]);
                    }
                }
            }
        }
        Some((rest, end2))
    } else {
        let mut one: Vec<crate::particle::Particle> = Vec::new();
        one.push(first);
        proof {
            assert(one@[0] == first);
            assert(sq.subrange(pos as int, q1 as int) == spec_ser_plist(one@));
            assert forall|l: Seq<crate::particle::Particle>, end: int|
                #![trigger sq.subrange(pos as int, end), spec_ser_plist(l)]
                pos <= end < sq.len() && sq.subrange(pos as int, end) == spec_ser_plist(l)
                    && sq[end] == 93 implies crate::particle::same_particle_seq(l, one@) && end
                == q1 by {
                if l.len() > 1 {
                    assert(sq[q1 as int] == 44);
                    assert(q1 < sq.len());
                    assert(false);
                }
            }
        }
        Some((one, q1))
    }
}

/// An optional author as `None` or `Some("...")`.
pub open spec fn spec_ser_author(a: Option<Vec<u8>>) -> Seq<u8> {
    match a {
        None => seq![78u8, 111u8, 110u8, 101u8],
        Some(t) => seq![83u8, 111u8, 109u8, 101u8, 40u8] + (spec_ser_string(t@) + seq![41u8]),
    }
}

/// The keyword `None`, as bytes.
pub fn lit_none() -> (v: Vec<u8>)
    ensures
        v@ == seq![78u8, 111u8, 110u8, 101u8],
{
    let mut v: Vec<u8> = Vec::new();
    v.push(78);
    v.push(111);
    v.push(110);
    v.push(101);
    proof {
        assert(v@ =~= seq![78u8, 111u8, 110u8, 101u8]);
    }
    v
}

/// The keyword `Some` with its opening parenthesis, as bytes.
pub fn lit_some() -> (v: Vec<u8>)
    ensures
        v@ == seq![83u8, 111u8, 109u8, 101u8, 40u8],
{
    let mut v: Vec<u8> = Vec::new();
    v.push(83);
    v.push(111);
    v.push(109);
    v.push(101);
    v.push(40);
    proof {
        assert(v@ =~= seq![83u8, 111u8, 109u8, 101u8, 40u8]);
    }
    v
}

/// Appends the optional author.
pub fn ser_author(out: &mut Vec<u8>, a: &Option<Vec<u8>>)
    requires
        a matches Some(t) ==> crate::level::wf_text(t@),
    ensures
        final(out)@ == old(out)@ + spec_ser_author(*a),
{
    match a {
        None => {
            let lit = lit_none();
            emit(out, &lit);
        },
        Some(t) => {
            let lit = lit_some();
            emit(out, &lit);
            ser_string(out, t);
            out.push(41);
            proof {
                assert(final(out)@ =~= old(out)@ + spec_ser_author(*a));
            }
        },
    }
}

/// Reads an optional author at `pos`.
pub fn parse_author(s: &Vec<u8>, pos: usize) -> (r: Option<(Option<Vec<u8>>, usize)>)
    ensures
        r matches Some(pr) ==> {
            &&& pos <= pr.1 <= s@.len()
            &&& s@.subrange(pos as int, pr.1 as int) == spec_ser_author(pr.0)
            &&& (pr.0 matches Some(t) ==> crate::level::wf_text(t@))
        },
        forall|a: Option<Vec<u8>>, end: int|
            #![trigger s@.subrange(pos as int, end), spec_ser_author(a)]
            pos <= end <= s@.len() && s@.subrange(pos as int, end) == spec_ser_author(a) && (
            a matches Some(t) ==> crate::level::wf_text(t@)) ==> (r matches Some(pr) && pr.1 == end
                && match (a, pr.0) {
                (None, None) => true,
                (Some(x), Some(y)) => x@ == y@,
                _ => false,
            }),
{
    let ghost sq = s@;
    let none_lit = lit_none();
    match expect(s, pos, &none_lit) {
        Some(end) => {
            proof {
                assert forall|a: Option<Vec<u8>>, end2: int|
                    #![trigger sq.subrange(pos as int, end2), spec_ser_author(a)]
                    pos <= end2 <= sq.len() && sq.subrange(pos as int, end2) == spec_ser_author(a)
                        && (a matches Some(t) ==> crate::level::wf_text(t@)) implies a is None
                    && end2 == end by {
                    match a {
                        Some(t) => {
                            lemma_prefix_split(
                                sq,
                                pos as int,
                                end2,
                                seq![83u8, 111u8, 109u8, 101u8, 40u8],
                                spec_ser_string(t@) + seq![41u8],
                            );
                            assert(sq.subrange(pos as int, pos + 5)[0] == sq[pos as int]);
                            assert(sq.subrange(pos as int, end as int)[0] == sq[pos as int]);
                            assert(false);
                        },
                        None => {},
                    }
                    assert(sq.subrange(pos as int, end2) =~= sq.subrange(pos as int, end as int));
                }
            }
            Some((None, end))
        },
        None => {
            let some_lit = lit_some();
            let p1 = match expect(s, pos, &some_lit) {
                Some(p) => p,
                None => {
                    proof {
                        assert forall|a: Option<Vec<u8>>, end2: int|
                            #![trigger sq.subrange(pos as int, end2), spec_ser_author(a)]
                            pos <= end2 <= sq.len() && sq.subrange(pos as int, end2)
                                == spec_ser_author(a) && (a matches Some(t)
                                ==> crate::level::wf_text(t@)) implies false by {
                            match a {
                                None => {
                                    assert(sq.subrange(pos as int, end2) == sq.subrange(
                                        pos as int,
                                        pos + 4,
                                    ));
                                },
                                Some(t) => {
                                    lemma_prefix_split(
                                        sq,
                                        pos as int,
                                        end2,
                                        seq![83u8, 111u8, 109u8, 101u8, 40u8],
                                        spec_ser_string(t@) + seq![41u8],
                                    );
                                },
                            }
                        }
                    }
                    return None;
                },
            };
            let r1 = parse_string(s, p1);
            proof {
                assert forall|a: Option<Vec<u8>>, end2: int|
                    #![trigger sq.subrange(pos as int, end2), spec_ser_author(a)]
                    pos <= end2 <= sq.len() && sq.subrange(pos as int, end2) == spec_ser_author(a)
                        && (a matches Some(t) ==> crate::level::wf_text(t@)) implies (a matches Some(
                    t) && (r1 matches Some(q) && q.0@ == t@ && q.1 == p1 + spec_ser_string(
                        t@,
                    ).len())) by {
                    match a {
                        None => {
                            assert(sq.subrange(pos as int, end2)[0] == sq[pos as int]);
                            assert(sq.subrange(pos as int, p1 as int)[0] == sq[pos as int]);
                            assert(false);
                        },
                        Some(t) => {
                            lemma_prefix_split(
                                sq,
                                pos as int,
                                end2,
                                seq![83u8, 111u8, 109u8, 101u8, 40u8],
                                spec_ser_string(t@) + seq![41u8],
                            );
                            lemma_prefix_split(
                                sq,
                                p1 as int,
                                end2,
                                spec_ser_string(t@),
                                seq![41u8],
                            );
                        },
                    }
                }
            }
            let tq = match r1 {
                Some(q) => q,
                None => {
                    return None;
                },
            };
            let text = tq.0;
            let p2 = tq.1;
            let r2 = expect_byte(s, p2, 41);
            proof {
                assert forall|a: Option<Vec<u8>>, end2: int|
                    #![trigger sq.subrange(pos as int, end2), spec_ser_author(a)]
                    pos <= end2 <= sq.len() && sq.subrange(pos as int, end2) == spec_ser_author(a)
                        && (a matches Some(t) ==> crate::level::wf_text(t@)) implies (r2
                    matches Some(q) && q == p2 + 1 && end2 == p2 + 1 && (a matches Some(t) && t@
                        == text@)) by {
                    match a {
                        None => {
                            assert(sq.subrange(pos as int, end2)[0] == sq[pos as int]);
                            assert(sq.subrange(pos as int, p1 as int)[0] == sq[pos as int]);
                            assert(false);
                        },
                        Some(t) => {
                            lemma_prefix_split(
                                sq,
                                pos as int,
                                end2,
                                seq![83u8, 111u8, 109u8, 101u8, 40u8],
                                spec_ser_string(t@) + seq![41u8],
                            );
                            lemma_prefix_split(
                                sq,
                                p1 as int,
                                end2,
                                spec_ser_string(t@),
                                seq![41u8],
                            );
                            assert(sq.subrange(p2 as int, end2)[0] == sq[p2 as int]);
                        },
                    }
                }
            }
            let p3 = match r2 {
                Some(p) => p,
                None => {
                    return None;
                },
            };
            proof {
                lemma_subrange_cat(sq, pos as int, p1 as int, p3 as int);
                lemma_subrange_cat(sq, p1 as int, p2 as int, p3 as int);
                assert(sq.subrange(pos as int, p1 as int) =~= seq![83u8, 111u8, 109u8, 101u8, 40u8]);
                assert(sq.subrange(p2 as int, p3 as int) =~= seq![41u8]);
                assert(sq.subrange(pos as int, p3 as int) =~= spec_ser_author(Some(text)));
            }
            Some((Some(text), p3))
        },
    }
}

/// An obstacle as `(position,rotation,color,width,height,is_killer)`.
pub open spec fn spec_ser_obstacle(o: crate::level::ObstacleData) -> Seq<u8> {
    seq![40u8] + (spec_ser_vec2(o.position) + (seq![44u8] + (spec_ser_i64(o.rotation) + (seq![
        44u8,
    ] + (spec_ser_color(o.color) + (seq![44u8] + (dec_digits(o.width as nat) + (seq![44u8] + (
    dec_digits(o.height as nat) + (seq![44u8] + (spec_ser_bool(o.is_killer) + seq![41u8])))))))))))
}

/// Where the pieces of a serialized obstacle lie in `sq`.
proof fn lemma_obstacle_parts(sq: Seq<u8>, pos: int, end: int, o: crate::level::ObstacleData)
    requires
        0 <= pos <= end <= sq.len(),
        sq.subrange(pos, end) == spec_ser_obstacle(o),
    ensures
        ({
            let p1 = pos + 1;
            let p2 = p1 + spec_ser_vec2(o.position).len();
            let p3 = p2 + 1;
            let p4 = p3 + spec_ser_i64(o.rotation).len();
            let p5 = p4 + 1;
            let p6 = p5 + spec_ser_color(o.color).len();
            let p7 = p6 + 1;
            let p8 = p7 + dec_digits(o.width as nat).len();
            let p9 = p8 + 1;
            let p10 = p9 + dec_digits(o.height as nat).len();
            let p11 = p10 + 1;
            let p12 = p11 + spec_ser_bool(o.is_killer).len();
            &&& p12 + 1 == end
            &&& sq[pos] == 40
            &&& sq.subrange(p1, p2) == spec_ser_vec2(o.position)
            &&& sq[p2] == 44
            &&& sq.subrange(p3, p4) == spec_ser_i64(o.rotation)
            &&& sq[p4] == 44
            &&& sq.subrange(p5, p6) == spec_ser_color(o.color)
            &&& sq[p6] == 44
            &&& sq.subrange(p7, p8) == dec_digits(o.width as nat)
            &&& sq[p8] == 44
            &&& sq.subrange(p9, p10) == dec_digits(o.height as nat)
            &&& sq[p10] == 44
            &&& sq.subrange(p11, p12) == spec_ser_bool(o.is_killer)
            &&& sq[p12] == 41
        }),
{
    let a1 = spec_ser_vec2(o.position);
    let a2 = spec_ser_i64(o.rotation);
    let a3 = spec_ser_color(o.color);
    let a4 = dec_digits(o.width as nat);
    let a5 = dec_digits(o.height as nat);
    let a6 = spec_ser_bool(o.is_killer);
    let t1 = a1 + (seq![44u8] + (a2 + (seq![44u8] + (a3 + (seq![44u8] + (a4 + (seq![44u8] + (a5 + (
    seq![44u8] + (a6 + seq![41u8]))))))))));
    lemma_prefix_split(sq, pos, end, seq![40u8], t1);
    assert(sq.subrange(pos, pos + 1)[0] == sq[pos]);
    let p1 = pos + 1;
    let t2 = seq![44u8] + (a2 + (seq![44u8] + (a3 + (seq![44u8] + (a4 + (seq![44u8] + (a5 + (seq![
        44u8,
    ] + (a6 + seq![41u8])))))))));
    lemma_prefix_split(sq, p1, end, a1, t2);
    let p2 = p1 + a1.len();
    let t3 = a2 + (seq![44u8] + (a3 + (seq![44u8] + (a4 + (seq![44u8] + (a5 + (seq![44u8] + (a6
        + seq![41u8]))))))));
    lemma_prefix_split(sq, p2, end, seq![44u8], t3);
    assert(sq.subrange(p2, p2 + 1)[0] == sq[p2]);
    let p3 = p2 + 1;
    let t4 = seq![44u8] + (a3 + (seq![44u8] + (a4 + (seq![44u8] + (a5 + (seq![44u8] + (a6 + seq![
        41u8,
    ])))))));
    lemma_prefix_split(sq, p3, end, a2, t4);
    let p4 = p3 + a2.len();
    let t5 = a3 + (seq![44u8] + (a4 + (seq![44u8] + (a5 + (seq![44u8] + (a6 + seq![41u8]))))));
    lemma_prefix_split(sq, p4, end, seq![44u8], t5);
    assert(sq.subrange(p4, p4 + 1)[0] == sq[p4]);
    let p5 = p4 + 1;
    let t6 = seq![44u8] + (a4 + (seq![44u8] + (a5 + (seq![44u8] + (a6 + seq![41u8])))));
    lemma_prefix_split(sq, p5, end, a3, t6);
    let p6 = p5 + a3.len();
    let t7 = a4 + (seq![44u8] + (a5 + (seq![44u8] + (a6 + seq![41u8]))));
    lemma_prefix_split(sq, p6, end, seq![44u8], t7);
    assert(sq.subrange(p6, p6 + 1)[0] == sq[p6]);
    let p7 = p6 + 1;
    let t8 = seq![44u8] + (a5 + (seq![44u8] + (a6 + seq![41u8])));
    lemma_prefix_split(sq, p7, end, a4, t8);
    let p8 = p7 + a4.len();
    let t9 = a5 + (seq![44u8] + (a6 + seq![41u8]));
    lemma_prefix_split(sq, p8, end, seq![44u8], t9);
    assert(sq.subrange(p8, p8 + 1)[0] == sq[p8]);
    let p9 = p8 + 1;
    let t10 = seq![44u8] + (a6 + seq![41u8]);
    lemma_prefix_split(sq, p9, end, a5, t10);
    let p10 = p9 + a5.len();
    let t11 = a6 + seq![41u8];
    lemma_prefix_split(sq, p10, end, seq![44u8], t11);
    assert(sq.subrange(p10, p10 + 1)[0] == sq[p10]);
    let p11 = p10 + 1;
    lemma_prefix_split(sq, p11, end, a6, seq![41u8]);
    let p12 = p11 + a6.len();
    assert(sq.subrange(p12, end)[0] == sq[p12]);
}

/// Appends the obstacle.
#[verifier::rlimit(100)]
#[verifier::spinoff_prover]
pub fn ser_obstacle(out: &mut Vec<u8>, o: &crate::level::ObstacleData)
    ensures
        final(out)@ == old(out)@ + spec_ser_obstacle(*o),
{
    out.push(40);
    ser_vec2(out, &o.position);
    out.push(44);
    ser_i64(out, o.rotation);
    out.push(44);
    ser_color(out, &o.color);
    out.push(44);
    ser_u64(out, o.width);
    out.push(44);
    ser_u64(out, o.height);
    out.push(44);
    ser_bool(out, o.is_killer);
    out.push(41);
    proof {
        assert(final(out)@ =~= old(out)@ + spec_ser_obstacle(*o));
    }
}

/// Reads an obstacle at `pos`.
#[verifier::rlimit(100)]
#[verifier::spinoff_prover]
pub fn parse_obstacle(s: &Vec<u8>, pos: usize) -> (r: Option<(crate::level::ObstacleData, usize)>)
    ensures
        r matches Some(pr) ==> pos < pr.1 <= s@.len() && s@.subrange(pos as int, pr.1 as int)
            == spec_ser_obstacle(pr.0),
        forall|o: crate::level::ObstacleData, end: int|
            #![trigger s@.subrange(pos as int, end), spec_ser_obstacle(o)]
            pos <= end <= s@.len() && s@.subrange(pos as int, end) == spec_ser_obstacle(o) ==> (
            r matches Some(pr) && pr.0 == o && pr.1 == end),
{
    let ghost sq = s@;
    let r0 = expect_byte(s, pos, 40);
    proof {
        assert forall|o: crate::level::ObstacleData, end: int|
            #![trigger sq.subrange(pos as int, end), spec_ser_obstacle(o)]
            pos <= end <= sq.len() && sq.subrange(pos as int, end) == spec_ser_obstacle(o) implies (
        r0 matches Some(q) && q == pos + 1) by {
            lemma_obstacle_parts(sq, pos as int, end, o);
        }
    }
    let p1 = match r0 {
        Some(q) => q,
        None => {
            return None;
        },
    };
    let r1 = parse_vec2(s, p1);
    proof {
        assert forall|o: crate::level::ObstacleData, end: int|
            #![trigger sq.subrange(pos as int, end), spec_ser_obstacle(o)]
            pos <= end <= sq.len() && sq.subrange(pos as int, end) == spec_ser_obstacle(o) implies (
        r1 matches Some(q) && q.0 == o.position && q.1 == p1 + spec_ser_vec2(o.position).len()) by {
            lemma_obstacle_parts(sq, pos as int, end, o);
        }
    }
    let posq = match r1 {
        Some(q) => q,
        None => {
            return None;
        },
    };
    let position = posq.0;
    let p2 = posq.1;
    let r2 = expect_byte(s, p2, 44);
    let p3 = match r2 {
        Some(q) => q,
        None => {
            proof {
                assert forall|o: crate::level::ObstacleData, end: int|
                    #![trigger sq.subrange(pos as int, end), spec_ser_obstacle(o)]
                    pos <= end <= sq.len() && sq.subrange(pos as int, end) == spec_ser_obstacle(o)
                        implies false by {
                    lemma_obstacle_parts(sq, pos as int, end, o);
                }
            }
            return None;
        },
    };
    let r3 = parse_i64(s, p3);
    proof {
        assert forall|o: crate::level::ObstacleData, end: int|
            #![trigger sq.subrange(pos as int, end), spec_ser_obstacle(o)]
            pos <= end <= sq.len() && sq.subrange(pos as int, end) == spec_ser_obstacle(o) implies (
        r3 matches Some(q) && q.0 == o.rotation && q.1 == p3 + spec_ser_i64(o.rotation).len()) by {
            lemma_obstacle_parts(sq, pos as int, end, o);
        }
    }
    let rotq = match r3 {
        Some(q) => q,
        None => {
            return None;
        },
    };
    let rotation = rotq.0;
    let p4 = rotq.1;
    let r4 = expect_byte(s, p4, 44);
    let p5 = match r4 {
        Some(q) => q,
        None => {
            proof {
                assert forall|o: crate::level::ObstacleData, end: int|
                    #![trigger sq.subrange(pos as int, end), spec_ser_obstacle(o)]
                    pos <= end <= sq.len() && sq.subrange(pos as int, end) == spec_ser_obstacle(o)
                        implies false by {
                    lemma_obstacle_parts(sq, pos as int, end, o);
                }
            }
            return None;
        },
    };
    let r5 = parse_color(s, p5);
    proof {
        assert forall|o: crate::level::ObstacleData, end: int|
            #![trigger sq.subrange(pos as int, end), spec_ser_obstacle(o)]
            pos <= end <= sq.len() && sq.subrange(pos as int, end) == spec_ser_obstacle(o) implies (
        r5 matches Some(q) && q.0 == o.color && q.1 == p5 + spec_ser_color(o.color).len()) by {
            lemma_obstacle_parts(sq, pos as int, end, o);
        }
    }
    let cq = match r5 {
        Some(q) => q,
        None => {
            return None;
        },
    };
    let color = cq.0;
    let p6 = cq.1;
    let r6 = expect_byte(s, p6, 44);
    let p7 = match r6 {
        Some(q) => q,
        None => {
            proof {
                assert forall|o: crate::level::ObstacleData, end: int|
                    #![trigger sq.subrange(pos as int, end), spec_ser_obstacle(o)]
                    pos <= end <= sq.len() && sq.subrange(pos as int, end) == spec_ser_obstacle(o)
                        implies false by {
                    lemma_obstacle_parts(sq, pos as int, end, o);
                }
            }
            return None;
        },
    };
    let r7 = parse_u64(s, p7);
    proof {
        assert forall|o: crate::level::ObstacleData, end: int|
            #![trigger sq.subrange(pos as int, end), spec_ser_obstacle(o)]
            pos <= end <= sq.len() && sq.subrange(pos as int, end) == spec_ser_obstacle(o) implies (
        r7 matches Some(q) && q.0 == o.width && q.1 == p7 + dec_digits(o.width as nat).len()) by {
            lemma_obstacle_parts(sq, pos as int, end, o);
        }
    }
    let wq = match r7 {
        Some(q) => q,
        None => {
            return None;
        },
    };
    let width = wq.0;
    let p8 = wq.1;
    let r8 = expect_byte(s, p8, 44);
    let p9 = match r8 {
        Some(q) => q,
        None => {
            proof {
                assert forall|o: crate::level::ObstacleData, end: int|
                    #![trigger sq.subrange(pos as int, end), spec_ser_obstacle(o)]
                    pos <= end <= sq.len() && sq.subrange(pos as int, end) == spec_ser_obstacle(o)
                        implies false by {
                    lemma_obstacle_parts(sq, pos as int, end, o);
                }
            }
            return None;
        },
    };
    let r9 = parse_u64(s, p9);
    proof {
        assert forall|o: crate::level::ObstacleData, end: int|
            #![trigger sq.subrange(pos as int, end), spec_ser_obstacle(o)]
            pos <= end <= sq.len() && sq.subrange(pos as int, end) == spec_ser_obstacle(o) implies (
        r9 matches Some(q) && q.0 == o.height && q.1 == p9 + dec_digits(o.height as nat).len()) by {
            lemma_obstacle_parts(sq, pos as int, end, o);
        }
    }
    let hq = match r9 {
        Some(q) => q,
        None => {
            return None;
        },
    };
    let height = hq.0;
    let p10 = hq.1;
    let r10 = expect_byte(s, p10, 44);
    let p11 = match r10 {
        Some(q) => q,
        None => {
            proof {
                assert forall|o: crate::level::ObstacleData, end: int|
                    #![trigger sq.subrange(pos as int, end), spec_ser_obstacle(o)]
                    pos <= end <= sq.len() && sq.subrange(pos as int, end) == spec_ser_obstacle(o)
                        implies false by {
                    lemma_obstacle_parts(sq, pos as int, end, o);
                }
            }
            return None;
        },
    };
    let r11 = parse_bool(s, p11);
    proof {
        assert forall|o: crate::level::ObstacleData, end: int|
            #![trigger sq.subrange(pos as int, end), spec_ser_obstacle(o)]
            pos <= end <= sq.len() && sq.subrange(pos as int, end) == spec_ser_obstacle(o) implies (
        r11 matches Some(q) && q.0 == o.is_killer && q.1 == p11 + spec_ser_bool(
            o.is_killer,
        ).len()) by {
            lemma_obstacle_parts(sq, pos as int, end, o);
        }
    }
    let kq = match r11 {
        Some(q) => q,
        None => {
            return None;
        },
    };
    let is_killer = kq.0;
    let p12 = kq.1;
    let r12 = expect_byte(s, p12, 41);
    proof {
        assert forall|o: crate::level::ObstacleData, end: int|
            #![trigger sq.subrange(pos as int, end), spec_ser_obstacle(o)]
            pos <= end <= sq.len() && sq.subrange(pos as int, end) == spec_ser_obstacle(o) implies (
        r12 matches Some(q) && q == p12 + 1 && end == p12 + 1 && position == o.position && rotation
            == o.rotation && color == o.color && width == o.width && height == o.height && is_killer
            == o.is_killer) by {
            lemma_obstacle_parts(sq, pos as int, end, o);
        }
    }
    let p13 = match r12 {
        Some(q) => q,
        None => {
            return None;
        },
    };
    let built = crate::level::ObstacleData { position, rotation, color, width, height, is_killer };
    proof {
        lemma_subrange_cat(sq, pos as int, p1 as int, p13 as int);
        lemma_subrange_cat(sq, p1 as int, p2 as int, p13 as int);
        lemma_subrange_cat(sq, p2 as int, p3 as int, p13 as int);
        lemma_subrange_cat(sq, p3 as int, p4 as int, p13 as int);
        lemma_subrange_cat(sq, p4 as int, p5 as int, p13 as int);
        lemma_subrange_cat(sq, p5 as int, p6 as int, p13 as int);
        lemma_subrange_cat(sq, p6 as int, p7 as int, p13 as int);
        lemma_subrange_cat(sq, p7 as int, p8 as int, p13 as int);
        lemma_subrange_cat(sq, p8 as int, p9 as int, p13 as int);
        lemma_subrange_cat(sq, p9 as int, p10 as int, p13 as int);
        lemma_subrange_cat(sq, p10 as int, p11 as int, p13 as int);
        lemma_subrange_cat(sq, p11 as int, p12 as int, p13 as int);
        assert(sq.subrange(pos as int, p1 as int) =~= seq![40u8]);
        assert(sq.subrange(p2 as int, p3 as int) =~= seq![44u8]);
        assert(sq.subrange(p4 as int, p5 as int) =~= seq![44u8]);
        assert(sq.subrange(p6 as int, p7 as int) =~= seq![44u8]);
        assert(sq.subrange(p8 as int, p9 as int) =~= seq![44u8]);
        assert(sq.subrange(p10 as int, p11 as int) =~= seq![44u8]);
        assert(sq.subrange(p12 as int, p13 as int) =~= seq![41u8]);
        assert(sq.subrange(pos as int, p13 as int) =~= spec_ser_obstacle(built));
    }
    Some((built, p13))
}

/// A placed particle as `(position,particle)`.
pub open spec fn spec_ser_pdata(pd: crate::level::ParticleData) -> Seq<u8> {
    seq![40u8] + (spec_ser_vec2(pd.spawn_position) + (seq![44u8] + (spec_ser_particle(pd.particle)
        + seq![41u8])))
}

/// A list of placed particles, comma separated.
pub open spec fn spec_ser_pdlist(l: Seq<crate::level::ParticleData>) -> Seq<u8>
    decreases l,
{
    if l.len() == 0 {
        Seq::empty()
    } else if l.len() == 1 {
        spec_ser_pdata(l[0])
    } else {
        spec_ser_pdata(l[0]) + (seq![44u8] + spec_ser_pdlist(l.drop_first()))
    }
}

/// A list of obstacles, comma separated.
pub open spec fn spec_ser_olist(l: Seq<crate::level::ObstacleData>) -> Seq<u8>
    decreases l,
{
    if l.len() == 0 {
        Seq::empty()
    } else if l.len() == 1 {
        spec_ser_obstacle(l[0])
    } else {
        spec_ser_obstacle(l[0]) + (seq![44u8] + spec_ser_olist(l.drop_first()))
    }
}

/// Where the pieces of a serialized placed particle lie in `sq`.
proof fn lemma_pdata_parts(sq: Seq<u8>, pos: int, end: int, pd: crate::level::ParticleData)
    requires
        0 <= pos <= end <= sq.len(),
        sq.subrange(pos, end) == spec_ser_pdata(pd),
    ensures
        ({
            let p1 = pos + 1;
            let p2 = p1 + spec_ser_vec2(pd.spawn_position).len();
            let p3 = p2 + 1;
            let p4 = p3 + spec_ser_particle(pd.particle).len();
            &&& p4 + 1 == end
            &&& sq[pos] == 40
            &&& sq.subrange(p1, p2) == spec_ser_vec2(pd.spawn_position)
            &&& sq[p2] == 44
            &&& sq.subrange(p3, p4) == spec_ser_particle(pd.particle)
            &&& sq[p4] == 41
        }),
{
    let a1 = spec_ser_vec2(pd.spawn_position);
    let a2 = spec_ser_particle(pd.particle);
    let t1 = a1 + (seq![44u8] + (a2 + seq![41u8]));
    lemma_prefix_split(sq, pos, end, seq![40u8], t1);
    assert(sq.subrange(pos, pos + 1)[0] == sq[pos]);
    let p1 = pos + 1;
    let t2 = seq![44u8] + (a2 + seq![41u8]);
    lemma_prefix_split(sq, p1, end, a1, t2);
    let p2 = p1 + a1.len();
    let t3 = a2 + seq![41u8];
    lemma_prefix_split(sq, p2, end, seq![44u8], t3);
    assert(sq.subrange(p2, p2 + 1)[0] == sq[p2]);
    let p3 = p2 + 1;
    lemma_prefix_split(sq, p3, end, a2, seq![41u8]);
    let p4 = p3 + a2.len();
    assert(sq.subrange(p4, end)[0] == sq[p4]);
}

/// Appends the placed particle.
pub fn ser_pdata(out: &mut Vec<u8>, pd: &crate::level::ParticleData)
    ensures
        final(out)@ == old(out)@ + spec_ser_pdata(*pd),
{
    out.push(40);
    ser_vec2(out, &pd.spawn_position);
    out.push(44);
    ser_particle(out, &pd.particle);
    out.push(41);
    proof {
        assert(final(out)@ =~= old(out)@ + spec_ser_pdata(*pd));
    }
}

/// Reads a placed particle at `pos`.
pub fn parse_pdata(s: &Vec<u8>, pos: usize) -> (r: Option<(crate::level::ParticleData, usize)>)
    ensures
        r matches Some(pr) ==> pos < pr.1 <= s@.len() && s@.subrange(pos as int, pr.1 as int)
            == spec_ser_pdata(pr.0),
        forall|pd: crate::level::ParticleData, end: int|
            #![trigger s@.subrange(pos as int, end), spec_ser_pdata(pd)]
            pos <= end <= s@.len() && s@.subrange(pos as int, end) == spec_ser_pdata(pd) ==> (
            r matches Some(pr) && crate::level::same_particle_data(pd, pr.0) && pr.1 == end),
{
    let ghost sq = s@;
    let r0 = expect_byte(s, pos, 40);
    proof {
        assert forall|pd: crate::level::ParticleData, end: int|
            #![trigger sq.subrange(pos as int, end), spec_ser_pdata(pd)]
            pos <= end <= sq.len() && sq.subrange(pos as int, end) == spec_ser_pdata(pd) implies (
        r0 matches Some(q) && q == pos + 1) by {
            lemma_pdata_parts(sq, pos as int, end, pd);
        }
    }
    let p1 = match r0 {
        Some(q) => q,
        None => {
            return None;
        },
    };
    let r1 = parse_vec2(s, p1);
    proof {
        assert forall|pd: crate::level::ParticleData, end: int|
            #![trigger sq.subrange(pos as int, end), spec_ser_pdata(pd)]
            pos <= end <= sq.len() && sq.subrange(pos as int, end) == spec_ser_pdata(pd) implies (
        r1 matches Some(q) && q.0 == pd.spawn_position && q.1 == p1 + spec_ser_vec2(
            pd.spawn_position,
        ).len()) by {
            lemma_pdata_parts(sq, pos as int, end, pd);
        }
    }
    let posq = match r1 {
        Some(q) => q,
        None => {
            return None;
        },
    };
    let spawn_position = posq.0;
    let p2 = posq.1;
    let r2 = expect_byte(s, p2, 44);
    let p3 = match r2 {
        Some(q) => q,
        None => {
            proof {
                assert forall|pd: crate::level::ParticleData, end: int|
                    #![trigger sq.subrange(pos as int, end), spec_ser_pdata(pd)]
                    pos <= end <= sq.len() && sq.subrange(pos as int, end) == spec_ser_pdata(pd)
                        implies false by {
                    lemma_pdata_parts(sq, pos as int, end, pd);
                }
            }
            return None;
        },
    };
    let r3 = parse_particle(s, p3);
    proof {
        assert forall|pd: crate::level::ParticleData, end: int|
            #![trigger sq.subrange(pos as int, end), spec_ser_pdata(pd)]
            pos <= end <= sq.len() && sq.subrange(pos as int, end) == spec_ser_pdata(pd) implies (
        r3 matches Some(q) && crate::particle::same_particle(pd.particle, q.0) && q.1 == p3
            + spec_ser_particle(pd.particle).len()) by {
            lemma_pdata_parts(sq, pos as int, end, pd);
        }
    }
    let pq = match r3 {
        Some(q) => q,
        None => {
            return None;
        },
    };
    let particle = pq.0;
    let p4 = pq.1;
    let r4 = expect_byte(s, p4, 41);
    proof {
        assert forall|pd: crate::level::ParticleData, end: int|
            #![trigger sq.subrange(pos as int, end), spec_ser_pdata(pd)]
            pos <= end <= sq.len() && sq.subrange(pos as int, end) == spec_ser_pdata(pd) implies (
        r4 matches Some(q) && q == p4 + 1 && end == p4 + 1 && spawn_position == pd.spawn_position
            && crate::particle::same_particle(pd.particle, particle)) by {
            lemma_pdata_parts(sq, pos as int, end, pd);
        }
    }
    let p5 = match r4 {
        Some(q) => q,
        None => {
            return None;
        },
    };
    let built = crate::level::ParticleData { spawn_position, particle };
    proof {
        lemma_subrange_cat(sq, pos as int, p1 as int, p5 as int);
        lemma_subrange_cat(sq, p1 as int, p2 as int, p5 as int);
        lemma_subrange_cat(sq, p2 as int, p3 as int, p5 as int);
        lemma_subrange_cat(sq, p3 as int, p4 as int, p5 as int);
        assert(sq.subrange(pos as int, p1 as int) =~= seq![40u8]);
        assert(sq.subrange(p2 as int, p3 as int) =~= seq![44u8]);
        assert(sq.subrange(p4 as int, p5 as int) =~= seq![41u8]);
        assert(sq.subrange(pos as int, p5 as int) =~= spec_ser_pdata(built));
    }
    Some((built, p5))
}

/// Appends the placed-particle list `list[from..]`, comma separated.
pub fn ser_pdlist_from(out: &mut Vec<u8>, list: &Vec<crate::level::ParticleData>, from: usize)
    requires
        from <= list@.len(),
    ensures
        final(out)@ == old(out)@ + spec_ser_pdlist(
            list@.subrange(from as int, list@.len() as int),
        ),
    decreases list@.len() - from,
{
    let n = list.len();
    if from >= n {
        proof {
            assert(final(out)@ =~= old(out)@ + spec_ser_pdlist(
                list@.subrange(from as int, n as int),
            ));
        }
        return ;
    }
    proof {
        assert(list@.subrange(from as int, n as int)[0] == list@[from as int]);
    }
    ser_pdata(out, &list[from]);
    if from + 1 < n {
        out.push(44);
        proof {
            assert(list@.subrange(from as int, n as int).drop_first() =~= list@.subrange(
                from + 1,
                n as int,
            ));
        }
        ser_pdlist_from(out, list, from + 1);
        proof {
            assert(final(out)@ =~= old(out)@ + spec_ser_pdlist(
                list@.subrange(from as int, n as int),
            ));
        }
    } else {
        proof {
            assert(final(out)@ =~= old(out)@ + spec_ser_pdlist(
                list@.subrange(from as int, n as int),
            ));
        }
    }
}

/// Appends the obstacle list `list[from..]`, comma separated.
pub fn ser_olist_from(out: &mut Vec<u8>, list: &Vec<crate::level::ObstacleData>, from: usize)
    requires
        from <= list@.len(),
    ensures
        final(out)@ == old(out)@ + spec_ser_olist(list@.subrange(from as int, list@.len() as int)),
    decreases list@.len() - from,
{
    let n = list.len();
    if from >= n {
        proof {
            assert(final(out)@ =~= old(out)@ + spec_ser_olist(
                list@.subrange(from as int, n as int),
            ));
        }
        return ;
    }
    proof {
        assert(list@.subrange(from as int, n as int)[0] == list@[from as int]);
    }
    ser_obstacle(out, &list[from]);
    if from + 1 < n {
        out.push(44);
        proof {
            assert(list@.subrange(from as int, n as int).drop_first() =~= list@.subrange(
                from + 1,
                n as int,
            ));
        }
        ser_olist_from(out, list, from + 1);
        proof {
            assert(final(out)@ =~= old(out)@ + spec_ser_olist(
                list@.subrange(from as int, n as int),
            ));
        }
    } else {
        proof {
            assert(final(out)@ =~= old(out)@ + spec_ser_olist(
                list@.subrange(from as int, n as int),
            ));
        }
    }
}

/// Structural equality of two placed-particle lists, entry by entry.
pub open spec fn same_pdlist(a: Seq<crate::level::ParticleData>, b: Seq<crate::level::ParticleData>) -> bool {
    a.len() == b.len() && forall|i: int|
        0 <= i < a.len() ==> crate::level::same_particle_data(#[trigger] a[i], b[i])
}

/// Reads a comma-separated placed-particle list at `pos`, up to (not
/// including) the closing bracket.
pub fn parse_pdlist(s: &Vec<u8>, pos: usize) -> (r: Option<
    (Vec<crate::level::ParticleData>, usize),
>)
    ensures
        r matches Some(pr) ==> pos <= pr.1 <= s@.len() && s@.subrange(pos as int, pr.1 as int)
            == spec_ser_pdlist(pr.0@),
        forall|l: Seq<crate::level::ParticleData>, end: int|
            #![trigger s@.subrange(pos as int, end), spec_ser_pdlist(l)]
            pos <= end < s@.len() && s@.subrange(pos as int, end) == spec_ser_pdlist(l) && s@[end]
                == 93 ==> (r matches Some(pr) && same_pdlist(l, pr.0@) && pr.1 == end),
    decreases s@.len() - pos,
{
    let ghost sq = s@;
    let n = s.len();
    if pos < n && s[pos] == 93 {
        let empty: Vec<crate::level::ParticleData> = Vec::new();
        proof {
            assert(sq.subrange(pos as int, pos as int) =~= spec_ser_pdlist(empty@));
            assert forall|l: Seq<crate::level::ParticleData>, end: int|
                #![trigger sq.subrange(pos as int, end), spec_ser_pdlist(l)]
                pos <= end < sq.len() && sq.subrange(pos as int, end) == spec_ser_pdlist(l)
                    && sq[end] == 93 implies l.len() == 0 && end == pos by {
                if l.len() > 0 {
                    assert(spec_ser_pdlist(l)[0] == spec_ser_pdata(l[0])[0]);
                    assert(spec_ser_pdata(l[0])[0] == 40);
                    assert(sq.subrange(pos as int, end)[0] == sq[pos as int]);
                    assert(false);
                } else {
                    assert(Seq::<u8>::empty().len() == 0);
                }
            }
        }
        return Some((empty, pos));
    }
    let r1 = parse_pdata(s, pos);
    proof {
        assert forall|l: Seq<crate::level::ParticleData>, end: int|
            #![trigger sq.subrange(pos as int, end), spec_ser_pdlist(l)]
            pos <= end < sq.len() && sq.subrange(pos as int, end) == spec_ser_pdlist(l) && sq[end]
                == 93 implies (l.len() > 0 && (r1 matches Some(q)
            && crate::level::same_particle_data(l[0], q.0) && (l.len() == 1 ==> q.1 == end) && (
            l.len() > 1 ==> q.1 < end && sq[q.1 as int] == 44 && sq.subrange(q.1 + 1, end)
                == spec_ser_pdlist(l.drop_first())))) by {
            if l.len() == 0 {
                assert(Seq::<u8>::empty().len() == 0);
                assert(end == pos);
                assert(sq[pos as int] == 93);
            } else if l.len() == 1 {
                assert(spec_ser_pdlist(l) == spec_ser_pdata(l[0]));
            } else {
                lemma_prefix_split(
                    sq,
                    pos as int,
                    end,
                    spec_ser_pdata(l[0]),
                    seq![44u8] + spec_ser_pdlist(l.drop_first()),
                );
                let q1 = pos + spec_ser_pdata(l[0]).len();
                lemma_prefix_split(sq, q1, end, seq![44u8], spec_ser_pdlist(l.drop_first()));
                assert(sq.subrange(q1, q1 + 1)[0] == sq[q1]);
            }
        }
    }
    let fq = match r1 {
        Some(q) => q,
        None => {
            return None;
        },
    };
    let first = fq.0;
    let q1 = fq.1;
    if q1 < n && s[q1] == 44 {
        let r2 = parse_pdlist(s, q1 + 1);
        proof {
            assert forall|l: Seq<crate::level::ParticleData>, end: int|
                #![trigger sq.subrange(pos as int, end), spec_ser_pdlist(l)]
                pos <= end < sq.len() && sq.subrange(pos as int, end) == spec_ser_pdlist(l)
                    && sq[end] == 93 implies (l.len() > 1 && (r2 matches Some(q) && same_pdlist(
                l.drop_first(),
                q.0@,
            ) && q.1 == end)) by {
                if l.len() == 1 {
                    assert(sq[q1 as int] == 93);
                }
            }
        }
        let rq = match r2 {
            Some(q) => q,
            None => {
                return None;
            },
        };
        let mut rest = rq.0;
        let end2 = rq.1;
        if rest.len() == 0 {
            proof {
                assert forall|l: Seq<crate::level::ParticleData>, end: int|
                    #![trigger sq.subrange(pos as int, end), spec_ser_pdlist(l)]
                    pos <= end < sq.len() && sq.subrange(pos as int, end) == spec_ser_pdlist(l)
                        && sq[end] == 93 implies false by {
                    assert(same_pdlist(l.drop_first(), rest@));
                }
            }
            return None;
        }
        rest.insert(0, first);
        proof {
            assert(rest@.drop_first() =~= rq.0@);
            assert(sq.subrange(pos as int, end2 as int) =~= spec_ser_pdlist(rest@)) by {
                lemma_subrange_cat(sq, pos as int, q1 as int, end2 as int);
                lemma_subrange_cat(sq, q1 as int, q1 + 1, end2 as int);
                assert(sq.subrange(q1 as int, q1 + 1) =~= seq![44u8]);
            }
            assert forall|l: Seq<crate::level::ParticleData>, end: int|
                #![trigger sq.subrange(pos as int, end), spec_ser_pdlist(l)]
                pos <= end < sq.len() && sq.subrange(pos as int, end) == spec_ser_pdlist(l)
                    && sq[end] == 93 implies same_pdlist(l, rest@) && end == end2 by {
                assert(same_pdlist(l.drop_first(), rest@.drop_first()));
                assert forall|i: int| 0 <= i < l.len() implies crate::level::same_particle_data(
                    #[trigger] l[i],
                    rest@[i],
                ) by {
                    if i > 0 {
                        assert(l.drop_first()[i - 1] == l[i]);
                        assert(rest@.drop_first()[i - 1] == rest@[i]);
                    }
                }
            }
        }
        Some((rest, end2))
    } else {
        let mut one: Vec<crate::level::ParticleData> = Vec::new();
        one.push(first);
        proof {
            assert(one@[0] == first);
            assert(sq.subrange(pos as int, q1 as int) == spec_ser_pdlist(one@));
            assert forall|l: Seq<crate::level::ParticleData>, end: int|
                #![trigger sq.subrange(pos as int, end), spec_ser_pdlist(l)]
                pos <= end < sq.len() && sq.subrange(pos as int, end) == spec_ser_pdlist(l)
                    && sq[end] == 93 implies same_pdlist(l, one@) && end == q1 by {
                if l.len() > 1 {
                    assert(sq[q1 as int] == 44);
                    assert(false);
                }
            }
        }
        Some((one, q1))
    }
}

/// Reads a comma-separated obstacle list at `pos`, up to (not including)
/// the closing bracket.
pub fn parse_olist(s: &Vec<u8>, pos: usize) -> (r: Option<
    (Vec<crate::level::ObstacleData>, usize),
>)
    ensures
        r matches Some(pr) ==> pos <= pr.1 <= s@.len() && s@.subrange(pos as int, pr.1 as int)
            == spec_ser_olist(pr.0@),
        forall|l: Seq<crate::level::ObstacleData>, end: int|
            #![trigger s@.subrange(pos as int, end), spec_ser_olist(l)]
            pos <= end < s@.len() && s@.subrange(pos as int, end) == spec_ser_olist(l) && s@[end]
                == 93 ==> (r matches Some(pr) && pr.0@ == l && pr.1 == end),
    decreases s@.len() - pos,
{
    let ghost sq = s@;
    let n = s.len();
    if pos < n && s[pos] == 93 {
        let empty: Vec<crate::level::ObstacleData> = Vec::new();
        proof {
            assert(sq.subrange(pos as int, pos as int) =~= spec_ser_olist(empty@));
            assert forall|l: Seq<crate::level::ObstacleData>, end: int|
                #![trigger sq.subrange(pos as int, end), spec_ser_olist(l)]
                pos <= end < sq.len() && sq.subrange(pos as int, end) == spec_ser_olist(l)
                    && sq[end] == 93 implies l =~= empty@ && end == pos by {
                if l.len() > 0 {
                    assert(spec_ser_olist(l)[0] == spec_ser_obstacle(l[0])[0]);
                    assert(spec_ser_obstacle(l[0])[0] == 40);
                    assert(sq.subrange(pos as int, end)[0] == sq[pos as int]);
                    assert(false);
                } else {
                    assert(Seq::<u8>::empty().len() == 0);
                }
            }
        }
        return Some((empty, pos));
    }
    let r1 = parse_obstacle(s, pos);
    proof {
        assert forall|l: Seq<crate::level::ObstacleData>, end: int|
            #![trigger sq.subrange(pos as int, end), spec_ser_olist(l)]
            pos <= end < sq.len() && sq.subrange(pos as int, end) == spec_ser_olist(l) && sq[end]
                == 93 implies (l.len() > 0 && (r1 matches Some(q) && q.0 == l[0] && (l.len() == 1
                ==> q.1 == end) && (l.len() > 1 ==> q.1 < end && sq[q.1 as int] == 44
                && sq.subrange(q.1 + 1, end) == spec_ser_olist(l.drop_first())))) by {
            if l.len() == 0 {
                assert(Seq::<u8>::empty().len() == 0);
                assert(end == pos);
                assert(sq[pos as int] == 93);
            } else if l.len() == 1 {
                assert(spec_ser_olist(l) == spec_ser_obstacle(l[0]));
            } else {
                lemma_prefix_split(
                    sq,
                    pos as int,
                    end,
                    spec_ser_obstacle(l[0]),
                    seq![44u8] + spec_ser_olist(l.drop_first()),
                );
                let q1 = pos + spec_ser_obstacle(l[0]).len();
                lemma_prefix_split(sq, q1, end, seq![44u8], spec_ser_olist(l.drop_first()));
                assert(sq.subrange(q1, q1 + 1)[0] == sq[q1]);
            }
        }
    }
    let fq = match r1 {
        Some(q) => q,
        None => {
            return None;
        },
    };
    let first = fq.0;
    let q1 = fq.1;
    if q1 < n && s[q1] == 44 {
        let r2 = parse_olist(s, q1 + 1);
        proof {
            assert forall|l: Seq<crate::level::ObstacleData>, end: int|
                #![trigger sq.subrange(pos as int, end), spec_ser_olist(l)]
                pos <= end < sq.len() && sq.subrange(pos as int, end) == spec_ser_olist(l)
                    && sq[end] == 93 implies (l.len() > 1 && (r2 matches Some(q) && q.0@
                == l.drop_first() && q.1 == end)) by {
                if l.len() == 1 {
                    assert(sq[q1 as int] == 93);
                }
            }
        }
        let rq = match r2 {
            Some(q) => q,
            None => {
                return None;
            },
        };
        let mut rest = rq.0;
        let end2 = rq.1;
        if rest.len() == 0 {
            proof {
                assert forall|l: Seq<crate::level::ObstacleData>, end: int|
                    #![trigger sq.subrange(pos as int, end), spec_ser_olist(l)]
                    pos <= end < sq.len() && sq.subrange(pos as int, end) == spec_ser_olist(l)
                        && sq[end] == 93 implies false by {}
            }
            return None;
        }
        rest.insert(0, first);
        proof {
            assert(rest@.drop_first() =~= rq.0@);
            assert(sq.subrange(pos as int, end2 as int) =~= spec_ser_olist(rest@)) by {
                lemma_subrange_cat(sq, pos as int, q1 as int, end2 as int);
                lemma_subrange_cat(sq, q1 as int, q1 + 1, end2 as int);
                assert(sq.subrange(q1 as int, q1 + 1) =~= seq![44u8]);
            }
            assert forall|l: Seq<crate::level::ObstacleData>, end: int|
                #![trigger sq.subrange(pos as int, end), spec_ser_olist(l)]
                pos <= end < sq.len() && sq.subrange(pos as int, end) == spec_ser_olist(l)
                    && sq[end] == 93 implies l =~= rest@ && end == end2 by {
                assert(l.drop_first() == rest@.drop_first());
                assert forall|i: int| 0 <= i < l.len() implies #[trigger] l[i] == rest@[i] by {
                    if i > 0 {
                        assert(l.drop_first()[i - 1] == l[i]);
                        assert(rest@.drop_first()[i - 1] == rest@[i]);
                    }
                }
            }
        }
        Some((rest, end2))
    } else {
        let mut one: Vec<crate::level::ObstacleData> = Vec::new();
        one.push(first);
        proof {
            assert(one@[0] == first);
            assert(sq.subrange(pos as int, q1 as int) == spec_ser_olist(one@));
            assert forall|l: Seq<crate::level::ObstacleData>, end: int|
                #![trigger sq.subrange(pos as int, end), spec_ser_olist(l)]
                pos <= end < sq.len() && sq.subrange(pos as int, end) == spec_ser_olist(l)
                    && sq[end] == 93 implies l =~= one@ && end == q1 by {
                if l.len() > 1 {
                    assert(sq[q1 as int] == 44);
                    assert(false);
                }
            }
        }
        Some((one, q1))
    }
}

/// A whole level as `("name",author,[particles],[obstacles],(x,y))`.
pub open spec fn spec_ser_level(d: crate::level::LevelData) -> Seq<u8> {
    seq![40u8] + (spec_ser_string(d.name@) + (seq![44u8] + (spec_ser_author(d.author) + (seq![
        44u8,
    ] + (seq![91u8] + (spec_ser_pdlist(d.particles@) + (seq![93u8] + (seq![44u8] + (seq![91u8] + (
    spec_ser_olist(d.obstacles@) + (seq![93u8] + (seq![44u8] + (spec_ser_vec2(d.player_spawn)
        + seq![41u8])))))))))))))
}

/// Where the pieces of a serialized level lie in `sq`.
proof fn lemma_level_parts(sq: Seq<u8>, pos: int, end: int, d: crate::level::LevelData)
    requires
        0 <= pos <= end <= sq.len(),
        sq.subrange(pos, end) == spec_ser_level(d),
    ensures
        ({
            let p1 = pos + 1;
            let p2 = p1 + spec_ser_string(d.name@).len();
            let p3 = p2 + 1;
            let p4 = p3 + spec_ser_author(d.author).len();
            let p5 = p4 + 1;
            let p6 = p5 + 1;
            let p7 = p6 + spec_ser_pdlist(d.particles@).len();
            let p8 = p7 + 1;
            let p9 = p8 + 1;
            let p10 = p9 + 1;
            let p11 = p10 + spec_ser_olist(d.obstacles@).len();
            let p12 = p11 + 1;
            let p13 = p12 + 1;
            let p14 = p13 + spec_ser_vec2(d.player_spawn).len();
            &&& p14 + 1 == end
            &&& sq[pos] == 40
            &&& sq.subrange(p1, p2) == spec_ser_string(d.name@)
            &&& sq[p2] == 44
            &&& sq.subrange(p3, p4) == spec_ser_author(d.author)
            &&& sq[p4] == 44
            &&& sq[p5] == 91
            &&& sq.subrange(p6, p7) == spec_ser_pdlist(d.particles@)
            &&& sq[p7] == 93
            &&& sq[p8] == 44
            &&& sq[p9] == 91
            &&& sq.subrange(p10, p11) == spec_ser_olist(d.obstacles@)
            &&& sq[p11] == 93
            &&& sq[p12] == 44
            &&& sq.subrange(p13, p14) == spec_ser_vec2(d.player_spawn)
            &&& sq[p14] == 41
        }),
{
    let a1 = spec_ser_string(d.name@);
    let a2 = spec_ser_author(d.author);
    let a3 = spec_ser_pdlist(d.particles@);
    let a4 = spec_ser_olist(d.obstacles@);
    let a5 = spec_ser_vec2(d.player_spawn);
    let t1 = a1 + (seq![44u8] + (a2 + (seq![44u8] + (seq![91u8] + (a3 + (seq![93u8] + (seq![44u8]
        + (seq![91u8] + (a4 + (seq![93u8] + (seq![44u8] + (a5 + seq![41u8]))))))))))));
    lemma_prefix_split(sq, pos, end, seq![40u8], t1);
    assert(sq.subrange(pos, pos + 1)[0] == sq[pos]);
    let p1 = pos + 1;
    let t2 = seq![44u8] + (a2 + (seq![44u8] + (seq![91u8] + (a3 + (seq![93u8] + (seq![44u8] + (seq![
        91u8,
    ] + (a4 + (seq![93u8] + (seq![44u8] + (a5 + seq![41u8])))))))))));
    lemma_prefix_split(sq, p1, end, a1, t2);
    let p2 = p1 + a1.len();
    let t3 = a2 + (seq![44u8] + (seq![91u8] + (a3 + (seq![93u8] + (seq![44u8] + (seq![91u8] + (a4
        + (seq![93u8] + (seq![44u8] + (a5 + seq![41u8]))))))))));
    lemma_prefix_split(sq, p2, end, seq![44u8], t3);
    assert(sq.subrange(p2, p2 + 1)[0] == sq[p2]);
    let p3 = p2 + 1;
    let t4 = seq![44u8] + (seq![91u8] + (a3 + (seq![93u8] + (seq![44u8] + (seq![91u8] + (a4 + (seq![
        93u8,
    ] + (seq![44u8] + (a5 + seq![41u8])))))))));
    lemma_prefix_split(sq, p3, end, a2, t4);
    let p4 = p3 + a2.len();
    let t5 = seq![91u8] + (a3 + (seq![93u8] + (seq![44u8] + (seq![91u8] + (a4 + (seq![93u8] + (seq![
        44u8,
    ] + (a5 + seq![41u8]))))))));
    lemma_prefix_split(sq, p4, end, seq![44u8], t5);
    assert(sq.subrange(p4, p4 + 1)[0] == sq[p4]);
    let p5 = p4 + 1;
    let t6 = a3 + (seq![93u8] + (seq![44u8] + (seq![91u8] + (a4 + (seq![93u8] + (seq![44u8] + (a5
        + seq![41u8])))))));
    lemma_prefix_split(sq, p5, end, seq![91u8], t6);
    assert(sq.subrange(p5, p5 + 1)[0] == sq[p5]);
    let p6 = p5 + 1;
    let t7 = seq![93u8] + (seq![44u8] + (seq![91u8] + (a4 + (seq![93u8] + (seq![44u8] + (a5 + seq![
        41u8,
    ]))))));
    lemma_prefix_split(sq, p6, end, a3, t7);
    let p7 = p6 + a3.len();
    let t8 = seq![44u8] + (seq![91u8] + (a4 + (seq![93u8] + (seq![44u8] + (a5 + seq![41u8])))));
    lemma_prefix_split(sq, p7, end, seq![93u8], t8);
    assert(sq.subrange(p7, p7 + 1)[0] == sq[p7]);
    let p8 = p7 + 1;
    let t9 = seq![91u8] + (a4 + (seq![93u8] + (seq![44u8] + (a5 + seq![41u8]))));
    lemma_prefix_split(sq, p8, end, seq![44u8], t9);
    assert(sq.subrange(p8, p8 + 1)[0] == sq[p8]);
    let p9 = p8 + 1;
    let t10 = a4 + (seq![93u8] + (seq![44u8] + (a5 + seq![41u8])));
    lemma_prefix_split(sq, p9, end, seq![91u8], t10);
    assert(sq.subrange(p9, p9 + 1)[0] == sq[p9]);
    let p10 = p9 + 1;
    let t11 = seq![93u8] + (seq![44u8] + (a5 + seq![41u8]));
    lemma_prefix_split(sq, p10, end, a4, t11);
    let p11 = p10 + a4.len();
    let t12 = seq![44u8] + (a5 + seq![41u8]);
    lemma_prefix_split(sq, p11, end, seq![93u8], t12);
    assert(sq.subrange(p11, p11 + 1)[0] == sq[p11]);
    let p12 = p11 + 1;
    let t13 = a5 + seq![41u8];
    lemma_prefix_split(sq, p12, end, seq![44u8], t13);
    assert(sq.subrange(p12, p12 + 1)[0] == sq[p12]);
    let p13 = p12 + 1;
    lemma_prefix_split(sq, p13, end, a5, seq![41u8]);
    let p14 = p13 + a5.len();
    assert(sq.subrange(p14, end)[0] == sq[p14]);
}

/// Regrouping of the level's pieces from emission order to the nesting of
/// `spec_ser_level`.
#[verifier::rlimit(100)]
#[verifier::spinoff_prover]
proof fn lemma_level_regroup(a1: Seq<u8>, a2: Seq<u8>, a3: Seq<u8>, a4: Seq<u8>, a5: Seq<u8>)
    ensures
        Seq::<u8>::empty() + seq![40u8] + a1 + seq![44u8] + a2 + seq![44u8] + seq![91u8] + a3
            + seq![93u8] + seq![44u8] + seq![91u8] + a4 + seq![93u8] + seq![44u8] + a5 + seq![41u8]
            == seq![40u8] + (a1 + (seq![44u8] + (a2 + (seq![44u8] + (seq![91u8] + (a3 + (seq![93u8]
            + (seq![44u8] + (seq![91u8] + (a4 + (seq![93u8] + (seq![44u8] + (a5 + seq![
            41u8,
        ]))))))))))))),
{
    assert(Seq::<u8>::empty() + seq![40u8] + a1 + seq![44u8] + a2 + seq![44u8] + seq![91u8] + a3
        + seq![93u8] + seq![44u8] + seq![91u8] + a4 + seq![93u8] + seq![44u8] + a5 + seq![41u8]
        =~= seq![40u8] + (a1 + (seq![44u8] + (a2 + (seq![44u8] + (seq![91u8] + (a3 + (seq![93u8] + (
    seq![44u8] + (seq![91u8] + (a4 + (seq![93u8] + (seq![44u8] + (a5 + seq![41u8]))))))))))))));
}

/// Serializes a level to its canonical text. This is what level files hold
/// and what the editor's "copy to clipboard" action emits.
#[verifier::rlimit(100)]
#[verifier::spinoff_prover]
pub fn serialize_level(d: &crate::level::LevelData) -> (out: Vec<u8>)
    requires
        crate::level::wf_text(d.name@),
        d.author matches Some(t) ==> crate::level::wf_text(t@),
    ensures
        out@ == spec_ser_level(*d),
{
    let mut out: Vec<u8> = Vec::new();
    push_byte(&mut out, 40);
    ser_string(&mut out, &d.name);
    push_byte(&mut out, 44);
    ser_author(&mut out, &d.author);
    push_byte(&mut out, 44);
    push_byte(&mut out, 91);
    ser_pdlist_from(&mut out, &d.particles, 0);
    push_byte(&mut out, 93);
    push_byte(&mut out, 44);
    push_byte(&mut out, 91);
    ser_olist_from(&mut out, &d.obstacles, 0);
    push_byte(&mut out, 93);
    push_byte(&mut out, 44);
    ser_vec2(&mut out, &d.player_spawn);
    push_byte(&mut out, 41);
    proof {
        assert(d.particles@.subrange(0, d.particles@.len() as int) =~= d.particles@);
        assert(d.obstacles@.subrange(0, d.obstacles@.len() as int) =~= d.obstacles@);
        lemma_level_regroup(
            spec_ser_string(d.name@),
            spec_ser_author(d.author),
            spec_ser_pdlist(d.particles@),
            spec_ser_olist(d.obstacles@),
            spec_ser_vec2(d.player_spawn),
        );
    }
    out
}

/// Parses a whole level file.
///
/// The file must be exactly the canonical serialization of a level: on
/// success the returned level re-serializes to the input byte for byte, and
/// parsing the serialization of any level reproduces that level
/// structurally — the round trip of the level data model. A malformed file
/// is reported as a failure for the caller to surface, never a crash.
#[verifier::rlimit(100)]
#[verifier::spinoff_prover]
pub fn parse_level(s: &Vec<u8>) -> (r: Option<crate::level::LevelData>)
    ensures
        r matches Some(d) ==> s@ == spec_ser_level(d) && crate::level::wf_text(d.name@) && (
        d.author matches Some(t) ==> crate::level::wf_text(t@)),
        forall|d: crate::level::LevelData|
            #![trigger spec_ser_level(d)]
            s@ == spec_ser_level(d) && crate::level::wf_text(d.name@) && (d.author matches Some(t)
                ==> crate::level::wf_text(t@)) ==> (r matches Some(d2)
                && crate::level::same_level_data(d, d2)),
{
    let ghost sq = s@;
    let n = s.len();
    let pos: usize = 0;
    proof {
        assert(sq.subrange(0, n as int) =~= sq);
    }
    let r0 = expect_byte(s, pos, 40);
    proof {
        assert forall|d: crate::level::LevelData|
            #![trigger spec_ser_level(d)]
            sq == spec_ser_level(d) implies (r0 matches Some(q) && q == 1 && sq.subrange(
            0,
            n as int,
        ) == spec_ser_level(d)) by {
            lemma_level_parts(sq, 0, n as int, d);
        }
    }
    let p1 = match r0 {
        Some(q) => q,
        None => {
            return None;
        },
    };
    let r1 = parse_string(s, p1);
    proof {
        assert forall|d: crate::level::LevelData|
            #![trigger spec_ser_level(d)]
            sq == spec_ser_level(d) && crate::level::wf_text(d.name@) implies (r1 matches Some(q)
            && q.0@ == d.name@ && q.1 == p1 + spec_ser_string(d.name@).len()) by {
            lemma_level_parts(sq, 0, n as int, d);
        }
    }
    let nq = match r1 {
        Some(q) => q,
        None => {
            return None;
        },
    };
    let name = nq.0;
    let p2 = nq.1;
    let r2 = expect_byte(s, p2, 44);
    let p3 = match r2 {
        Some(q) => q,
        None => {
            proof {
                assert forall|d: crate::level::LevelData|
                    #![trigger spec_ser_level(d)]
                    sq == spec_ser_level(d) && crate::level::wf_text(d.name@) implies false by {
                    lemma_level_parts(sq, 0, n as int, d);
                }
            }
            return None;
        },
    };
    let r3 = parse_author(s, p3);
    proof {
        assert forall|d: crate::level::LevelData|
            #![trigger spec_ser_level(d)]
            sq == spec_ser_level(d) && crate::level::wf_text(d.name@) && (d.author matches Some(t)
                ==> crate::level::wf_text(t@)) implies (r3 matches Some(q) && q.1 == p3
            + spec_ser_author(d.author).len() && match (d.author, q.0) {
            (None, None) => true,
            (Some(x), Some(y)) => x@ == y@,
            _ => false,
        }) by {
            lemma_level_parts(sq, 0, n as int, d);
        }
    }
    let aq = match r3 {
        Some(q) => q,
        None => {
            return None;
        },
    };
    let author = aq.0;
    let p4 = aq.1;
    let r4 = expect_byte(s, p4, 44);
    let p5 = match r4 {
        Some(q) => q,
        None => {
            proof {
                assert forall|d: crate::level::LevelData|
                    #![trigger spec_ser_level(d)]
                    sq == spec_ser_level(d) && crate::level::wf_text(d.name@) && (d.author
                        matches Some(t) ==> crate::level::wf_text(t@)) implies false by {
                    lemma_level_parts(sq, 0, n as int, d);
                }
            }
            return None;
        },
    };
    let r5 = expect_byte(s, p5, 91);
    let p6 = match r5 {
        Some(q) => q,
        None => {
            proof {
                assert forall|d: crate::level::LevelData|
                    #![trigger spec_ser_level(d)]
                    sq == spec_ser_level(d) && crate::level::wf_text(d.name@) && (d.author
                        matches Some(t) ==> crate::level::wf_text(t@)) implies false by {
                    lemma_level_parts(sq, 0, n as int, d);
                }
            }
            return None;
        },
    };
    let r6 = parse_pdlist(s, p6);
    proof {
        assert forall|d: crate::level::LevelData|
            #![trigger spec_ser_level(d)]
            sq == spec_ser_level(d) && crate::level::wf_text(d.name@) && (d.author matches Some(t)
                ==> crate::level::wf_text(t@)) implies (r6 matches Some(q) && same_pdlist(
            d.particles@,
            q.0@,
        ) && q.1 == p6 + spec_ser_pdlist(d.particles@).len()) by {
            lemma_level_parts(sq, 0, n as int, d);
        }
    }
    let pq = match r6 {
        Some(q) => q,
        None => {
            return None;
        },
    };
    let particles = pq.0;
    let p7 = pq.1;
    let r7 = expect_byte(s, p7, 93);
    let p8 = match r7 {
        Some(q) => q,
        None => {
            proof {
                assert forall|d: crate::level::LevelData|
                    #![trigger spec_ser_level(d)]
                    sq == spec_ser_level(d) && crate::level::wf_text(d.name@) && (d.author
                        matches Some(t) ==> crate::level::wf_text(t@)) implies false by {
                    lemma_level_parts(sq, 0, n as int, d);
                }
            }
            return None;
        },
    };
    let r8 = expect_byte(s, p8, 44);
    let p9 = match r8 {
        Some(q) => q,
        None => {
            proof {
                assert forall|d: crate::level::LevelData|
                    #![trigger spec_ser_level(d)]
                    sq == spec_ser_level(d) && crate::level::wf_text(d.name@) && (d.author
                        matches Some(t) ==> crate::level::wf_text(t@)) implies false by {
                    lemma_level_parts(sq, 0, n as int, d);
                }
            }
            return None;
        },
    };
    let r9 = expect_byte(s, p9, 91);
    let p10 = match r9 {
        Some(q) => q,
        None => {
            proof {
                assert forall|d: crate::level::LevelData|
                    #![trigger spec_ser_level(d)]
                    sq == spec_ser_level(d) && crate::level::wf_text(d.name@) && (d.author
                        matches Some(t) ==> crate::level::wf_text(t@)) implies false by {
                    lemma_level_parts(sq, 0, n as int, d);
                }
            }
            return None;
        },
    };
    let r10 = parse_olist(s, p10);
    proof {
        assert forall|d: crate::level::LevelData|
            #![trigger spec_ser_level(d)]
            sq == spec_ser_level(d) && crate::level::wf_text(d.name@) && (d.author matches Some(t)
                ==> crate::level::wf_text(t@)) implies (r10 matches Some(q) && q.0@ == d.obstacles@
            && q.1 == p10 + spec_ser_olist(d.obstacles@).len()) by {
            lemma_level_parts(sq, 0, n as int, d);
        }
    }
    let oq = match r10 {
        Some(q) => q,
        None => {
            return None;
        },
    };
    let obstacles = oq.0;
    let p11 = oq.1;
    let r11 = expect_byte(s, p11, 93);
    let p12 = match r11 {
        Some(q) => q,
        None => {
            proof {
                assert forall|d: crate::level::LevelData|
                    #![trigger spec_ser_level(d)]
                    sq == spec_ser_level(d) && crate::level::wf_text(d.name@) && (d.author
                        matches Some(t) ==> crate::level::wf_text(t@)) implies false by {
                    lemma_level_parts(sq, 0, n as int, d);
                }
            }
            return None;
        },
    };
    let r12 = expect_byte(s, p12, 44);
    let p13 = match r12 {
        Some(q) => q,
        None => {
            proof {
                assert forall|d: crate::level::LevelData|
                    #![trigger spec_ser_level(d)]
                    sq == spec_ser_level(d) && crate::level::wf_text(d.name@) && (d.author
                        matches Some(t) ==> crate::level::wf_text(t@)) implies false by {
                    lemma_level_parts(sq, 0, n as int, d);
                }
            }
            return None;
        },
    };
    let r13 = parse_vec2(s, p13);
    proof {
        assert forall|d: crate::level::LevelData|
            #![trigger spec_ser_level(d)]
            sq == spec_ser_level(d) && crate::level::wf_text(d.name@) && (d.author matches Some(t)
                ==> crate::level::wf_text(t@)) implies (r13 matches Some(q) && q.0 == d.player_spawn
            && q.1 == p13 + spec_ser_vec2(d.player_spawn).len()) by {
            lemma_level_parts(sq, 0, n as int, d);
        }
    }
    let vq = match r13 {
        Some(q) => q,
        None => {
            return None;
        },
    };
    let player_spawn = vq.0;
    let p14 = vq.1;
    let r14 = expect_byte(s, p14, 41);
    proof {
        assert forall|d: crate::level::LevelData|
            #![trigger spec_ser_level(d)]
            sq == spec_ser_level(d) && crate::level::wf_text(d.name@) && (d.author matches Some(t)
                ==> crate::level::wf_text(t@)) implies (r14 matches Some(q) && q == p14 + 1 && q
            == n) by {
            lemma_level_parts(sq, 0, n as int, d);
        }
    }
    let p15 = match r14 {
        Some(q) => q,
        None => {
            return None;
        },
    };
    if p15 != n {
        // Trailing bytes: not a level file.
        return None;
    }
    let built = crate::level::LevelData { name, author, particles, obstacles, player_spawn };
    proof {
        let a1 = spec_ser_string(built.name@);
        let a2 = spec_ser_author(built.author);
        let a3 = spec_ser_pdlist(built.particles@);
        let a4 = spec_ser_olist(built.obstacles@);
        let a5 = spec_ser_vec2(built.player_spawn);
        lemma_subrange_cat(sq, p14 as int, p14 + 1, p15 as int);
        assert(sq.subrange(p14 as int, p15 as int) =~= seq![41u8]);
        lemma_subrange_cat(sq, p13 as int, p14 as int, p15 as int);
        assert(sq.subrange(p13 as int, p15 as int) == a5 + seq![41u8]);
        lemma_subrange_cat(sq, p12 as int, p13 as int, p15 as int);
        assert(sq.subrange(p12 as int, p13 as int) =~= seq![44u8]);
        assert(sq.subrange(p12 as int, p15 as int) == seq![44u8] + (a5 + seq![41u8]));
        lemma_subrange_cat(sq, p11 as int, p12 as int, p15 as int);
        assert(sq.subrange(p11 as int, p12 as int) =~= seq![93u8]);
        assert(sq.subrange(p11 as int, p15 as int) == seq![93u8] + (seq![44u8] + (a5 + seq![
            41u8,
        ])));
        lemma_subrange_cat(sq, p10 as int, p11 as int, p15 as int);
        assert(sq.subrange(p10 as int, p15 as int) == a4 + (seq![93u8] + (seq![44u8] + (a5 + seq![
            41u8,
        ]))));
        lemma_subrange_cat(sq, p9 as int, p10 as int, p15 as int);
        assert(sq.subrange(p9 as int, p10 as int) =~= seq![91u8]);
        assert(sq.subrange(p9 as int, p15 as int) == seq![91u8] + (a4 + (seq![93u8] + (seq![44u8]
            + (a5 + seq![41u8])))));
        lemma_subrange_cat(sq, p8 as int, p9 as int, p15 as int);
        assert(sq.subrange(p8 as int, p9 as int) =~= seq![44u8]);
        assert(sq.subrange(p8 as int, p15 as int) == seq![44u8] + (seq![91u8] + (a4 + (seq![93u8]
            + (seq![44u8] + (a5 + seq![41u8]))))));
        lemma_subrange_cat(sq, p7 as int, p8 as int, p15 as int);
        assert(sq.subrange(p7 as int, p8 as int) =~= seq![93u8]);
        assert(sq.subrange(p7 as int, p15 as int) == seq![93u8] + (seq![44u8] + (seq![91u8] + (a4
            + (seq![93u8] + (seq![44u8] + (a5 + seq![41u8])))))));
        lemma_subrange_cat(sq, p6 as int, p7 as int, p15 as int);
        assert(sq.subrange(p6 as int, p15 as int) == a3 + (seq![93u8] + (seq![44u8] + (seq![91u8]
            + (a4 + (seq![93u8] + (seq![44u8] + (a5 + seq![41u8]))))))));
        lemma_subrange_cat(sq, p5 as int, p6 as int, p15 as int);
        assert(sq.subrange(p5 as int, p6 as int) =~= seq![91u8]);
        assert(sq.subrange(p5 as int, p15 as int) == seq![91u8] + (a3 + (seq![93u8] + (seq![44u8]
            + (seq![91u8] + (a4 + (seq![93u8] + (seq![44u8] + (a5 + seq![41u8])))))))));
        lemma_subrange_cat(sq, p4 as int, p5 as int, p15 as int);
        assert(sq.subrange(p4 as int, p5 as int) =~= seq![44u8]);
        assert(sq.subrange(p4 as int, p15 as int) == seq![44u8] + (seq![91u8] + (a3 + (seq![93u8]
            + (seq![44u8] + (seq![91u8] + (a4 + (seq![93u8] + (seq![44u8] + (a5 + seq![
            41u8,
        ]))))))))));
        lemma_subrange_cat(sq, p3 as int, p4 as int, p15 as int);
        assert(sq.subrange(p3 as int, p15 as int) == a2 + (seq![44u8] + (seq![91u8] + (a3 + (seq![
            93u8,
        ] + (seq![44u8] + (seq![91u8] + (a4 + (seq![93u8] + (seq![44u8] + (a5 + seq![
            41u8,
        ])))))))))));
        lemma_subrange_cat(sq, p2 as int, p3 as int, p15 as int);
        assert(sq.subrange(p2 as int, p3 as int) =~= seq![44u8]);
        assert(sq.subrange(p2 as int, p15 as int) == seq![44u8] + (a2 + (seq![44u8] + (seq![91u8]
            + (a3 + (seq![93u8] + (seq![44u8] + (seq![91u8] + (a4 + (seq![93u8] + (seq![44u8] + (a5
            + seq![41u8]))))))))))));
        lemma_subrange_cat(sq, p1 as int, p2 as int, p15 as int);
        assert(sq.subrange(p1 as int, p15 as int) == a1 + (seq![44u8] + (a2 + (seq![44u8] + (seq![
            91u8,
        ] + (a3 + (seq![93u8] + (seq![44u8] + (seq![91u8] + (a4 + (seq![93u8] + (seq![44u8] + (a5
            + seq![41u8])))))))))))));
        lemma_subrange_cat(sq, 0, p1 as int, p15 as int);
        assert(sq.subrange(0, p1 as int) =~= seq![40u8]);
        assert(sq.subrange(0, p15 as int) == spec_ser_level(built));
        assert(sq == spec_ser_level(built));
    }
    Some(built)
}

} // verus!
