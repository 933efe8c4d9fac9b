//! Wire framing: every entity travels as a self-describing string of
//! characters. Encoding is a function of the entity alone, and each
//! decoder's contract states that it inverts the encoder exactly;
//! anything else is rejected, never misread.
use vstd::prelude::*;
use vstd::string::StringExecFns;
use vstd::string::StrSliceExecFns;

use crate::aggregated_witness::AggregatedReport;
use crate::aggregated_witness::AggregatedReportModel;
use crate::barycentric_agreement::BarycentricReport;
use crate::barycentric_agreement::BarycentricReportModel;
use crate::basic::Message;
use crate::basic::MessageModel;
use crate::basic::RecvObject;
use crate::basic::RecvObjectModel;
use crate::reliable::ObjectContent;
use crate::reliable::ObjectContentModel;
use crate::reliable::Signal;
use crate::reliable::SignalModel;
use crate::reliable::SignalType;
use crate::witness::Report;
use crate::witness::ReportModel;
use crate::witness::ReportType;

verus! {

/// The digit character for `d`.
pub open spec fn spec_digit_char(d: int) -> char {
    if d == 0 {
        '0'
    } else if d == 1 {
        '1'
    } else if d == 2 {
        '2'
    } else if d == 3 {
        '3'
    } else if d == 4 {
        '4'
    } else if d == 5 {
        '5'
    } else if d == 6 {
        '6'
    } else if d == 7 {
        '7'
    } else if d == 8 {
        '8'
    } else {
        '9'
    }
}

/// Is `c` a decimal digit?
pub open spec fn spec_is_digit(c: char) -> bool {
    c == '0' || c == '1' || c == '2' || c == '3' || c == '4' || c == '5' || c == '6' || c == '7'
        || c == '8' || c == '9'
}

/// The value of the digit `c`.
pub open spec fn spec_digit_val(c: char) -> int {
    if c == '0' {
        0
    } else if c == '1' {
        1
    } else if c == '2' {
        2
    } else if c == '3' {
        3
    } else if c == '4' {
        4
    } else if c == '5' {
        5
    } else if c == '6' {
        6
    } else if c == '7' {
        7
    } else if c == '8' {
        8
    } else {
        9
    }
}

/// The decimal digits of `n`, most significant first, without leading
/// zeroes (a single zero digit for zero).
pub open spec fn spec_dec_digits(n: nat) -> Seq<char>
    decreases n,
{
    if n < 10 {
        seq![spec_digit_char(n as int)]
    } else {
        spec_dec_digits(n / 10).push(spec_digit_char((n % 10) as int))
    }
}

/// A number on the wire: its digits followed by a terminator.
pub open spec fn spec_enc_u64(n: nat) -> Seq<char> {
    spec_dec_digits(n) + seq![';']
}

/// The number a digit string denotes.
pub open spec fn spec_digits_value(ds: Seq<char>) -> nat
    decreases ds.len(),
{
    if ds.len() == 0 {
        0
    } else {
        (spec_digits_value(ds.drop_last()) * 10 + spec_digit_val(ds.last())) as nat
    }
}

/// The digit string of `n` is non-empty, holds digits only, and denotes
/// `n`.
pub proof fn lemma_dec_digits_wf(n: nat)
    ensures
        spec_dec_digits(n).len() >= 1,
        forall|i: int|
            0 <= i < spec_dec_digits(n).len() ==> spec_is_digit(#[trigger] spec_dec_digits(n)[i]),
        spec_digits_value(spec_dec_digits(n)) == n,
    decreases n,
{
    if n < 10 {
        let ds = spec_dec_digits(n);
        assert(ds == seq![spec_digit_char(n as int)]);
        assert(ds.drop_last() =~= Seq::<char>::empty());
        assert(ds.last() == spec_digit_char(n as int));
        assert(spec_digits_value(ds.drop_last()) == 0);
        assert(spec_digits_value(ds) == (spec_digits_value(ds.drop_last()) * 10 + spec_digit_val(
            ds.last(),
        )) as nat);
        assert(spec_digit_val(spec_digit_char(n as int)) == n);
    } else {
        lemma_dec_digits_wf(n / 10);
        let ds = spec_dec_digits(n);
        assert(ds.drop_last() =~= spec_dec_digits(n / 10));
        assert(ds.last() == spec_digit_char((n % 10) as int));
        assert(spec_digits_value(ds) == (n / 10) * 10 + (n % 10));
    }
}

/// A prefix of a digit string never denotes more than the whole.
pub proof fn lemma_digits_value_prefix(ds: Seq<char>, i: int)
    requires
        0 <= i <= ds.len(),
    ensures
        spec_digits_value(ds.take(i)) <= spec_digits_value(ds),
    decreases ds.len() - i,
{
    if i < ds.len() {
        lemma_digits_value_prefix(ds, i + 1);
        assert(ds.take(i + 1).drop_last() =~= ds.take(i));
        assert(ds.take(i + 1).last() == ds[i]);
        assert(spec_digits_value(ds.take(i + 1)) == spec_digits_value(ds.take(i)) * 10
            + spec_digit_val(ds[i]));
        assert(spec_digits_value(ds.take(i)) <= spec_digits_value(ds.take(i)) * 10);
    } else {
        assert(ds.take(i) =~= ds);
    }
}

/// A digit character round-trips through its value.
proof fn lemma_digit_char_of_val(c: char)
    requires
        spec_is_digit(c),
    ensures
        spec_digit_char(spec_digit_val(c)) == c,
{
}

/// The digit string of a number starts with a zero only when it is the
/// single zero digit.
pub proof fn lemma_dec_digits_no_leading_zero(n: nat)
    ensures
        spec_dec_digits(n).len() >= 2 ==> spec_dec_digits(n)[0] != '0',
    decreases n,
{
    if n >= 10 {
        lemma_dec_digits_no_leading_zero(n / 10);
        lemma_dec_digits_wf(n / 10);
        let ds = spec_dec_digits(n);
        let rec = spec_dec_digits(n / 10);
        assert(ds[0] == rec[0]);
        if n / 10 < 10 {
            assert(rec == seq![spec_digit_char((n / 10) as int)]);
            assert(n / 10 >= 1);
            assert(rec[0] != '0');
        } else {
            lemma_dec_digits_wf((n / 10) / 10);
            assert(rec == spec_dec_digits((n / 10) / 10).push(
                spec_digit_char(((n / 10) % 10) as int),
            ));
            assert(rec.len() >= 2);
            assert(rec[0] != '0');
        }
    }
}

/// A non-empty digit string without a leading zero is exactly the digit
/// string of the number it denotes.
pub proof fn lemma_digits_canonical(ds: Seq<char>)
    requires
        ds.len() >= 1,
        forall|i: int| 0 <= i < ds.len() ==> spec_is_digit(#[trigger] ds[i]),
        ds.len() >= 2 ==> ds[0] != '0',
    ensures
        ds == spec_dec_digits(spec_digits_value(ds)),
    decreases ds.len(),
{
    let v = spec_digits_value(ds);
    if ds.len() == 1 {
        assert(ds.drop_last() =~= Seq::<char>::empty());
        assert(spec_digits_value(ds.drop_last()) == 0);
        assert(v == spec_digit_val(ds[0]));
        lemma_digit_char_of_val(ds[0]);
        assert(spec_dec_digits(v) =~= ds);
    } else {
        let dsp = ds.drop_last();
        let d = ds.last();
        assert(dsp[0] == ds[0]);
        lemma_digits_canonical(dsp);
        let vp = spec_digits_value(dsp);
        lemma_digits_value_prefix(dsp, 1);
        assert(dsp.take(1) =~= seq![dsp[0]]);
        assert(dsp.take(1).drop_last() =~= Seq::<char>::empty());
        assert(dsp.take(1).last() == dsp[0]);
        assert(spec_digits_value(dsp.take(1).drop_last()) == 0);
        assert(spec_digits_value(dsp.take(1)) == spec_digit_val(dsp[0]));
        assert(spec_digit_val(dsp[0]) >= 1);
        assert(vp >= 1);
        assert(v == vp * 10 + spec_digit_val(d));
        assert(v >= 10);
        assert(v / 10 == vp && v % 10 == spec_digit_val(d)) by (nonlinear_arith)
            requires
                v == vp * 10 + spec_digit_val(d),
                0 <= spec_digit_val(d) < 10,
                vp >= 0,
        ;
        lemma_digit_char_of_val(d);
        assert(spec_dec_digits(v) == spec_dec_digits(vp).push(spec_digit_char((v % 10) as int)));
        assert(spec_dec_digits(v) =~= ds);
    }
}

/// Adjacent slices of the input concatenate.
proof fn lemma_subrange_join(s: Seq<char>, a: int, b: int, c: int)
    requires
        0 <= a <= b <= c <= s.len(),
    ensures
        s.subrange(a, c) == s.subrange(a, b) + s.subrange(b, c),
{
    assert(s.subrange(a, c) =~= s.subrange(a, b) + s.subrange(b, c));
}

/// What an input that starts (at `pos`) with the wire form of `n` looks
/// like: the digits of `n`, then the terminator, all inside the input.
proof fn lemma_enc_u64_at(s: Seq<char>, pos: int, n: nat, rest: Seq<char>)
    requires
        0 <= pos <= s.len(),
        s.skip(pos) == spec_enc_u64(n) + rest,
    ensures
        spec_dec_digits(n).len() >= 1,
        pos + spec_dec_digits(n).len() + 1 <= s.len(),
        forall|j: int|
            0 <= j < spec_dec_digits(n).len() ==> s[pos + j] == #[trigger] spec_dec_digits(n)[j],
        forall|j: int|
            0 <= j < spec_dec_digits(n).len() ==> spec_is_digit(#[trigger] s[pos + j]),
        s[pos + spec_dec_digits(n).len()] == ';',
        spec_digits_value(spec_dec_digits(n)) == n,
        !spec_is_digit(';'),
{
    lemma_dec_digits_wf(n);
    let ds = spec_dec_digits(n);
    let dlen = ds.len() as int;
    let e = spec_enc_u64(n) + rest;
    assert(s.skip(pos).len() == s.len() - pos);
    assert(e.len() == dlen + 1 + rest.len());
    assert forall|j: int| 0 <= j < dlen implies s[pos + j] == #[trigger] ds[j] by {
        assert(s.skip(pos)[j] == s[pos + j]);
        assert(e[j] == (spec_dec_digits(n) + seq![';'])[j]);
        assert(e[j] == ds[j]);
    }
    assert forall|j: int| 0 <= j < dlen implies spec_is_digit(#[trigger] s[pos + j]) by {
        assert(s[pos + j] == ds[j]);
        assert(spec_is_digit(ds[j]));
    }
    assert(s.skip(pos)[dlen] == s[pos + dlen]);
    assert(e[dlen] == (spec_dec_digits(n) + seq![';'])[dlen]);
    assert(e[dlen] == ';');
}

/// The one-character string for the digit `d`.
fn digit_str(d: u64) -> (r: &'static str)
    requires
        d < 10,
    ensures
        r@ == seq![spec_digit_char(d as int)],
{
    if d == 0 {
        let s = "0";
        proof {
            reveal_strlit("0");
            assert(s@ =~= seq![spec_digit_char(0)]);
        }
        s
    } else if d == 1 {
        let s = "1";
        proof {
            reveal_strlit("1");
            assert(s@ =~= seq![spec_digit_char(1)]);
        }
        s
    } else if d == 2 {
        let s = "2";
        proof {
            reveal_strlit("2");
            assert(s@ =~= seq![spec_digit_char(2)]);
        }
        s
    } else if d == 3 {
        let s = "3";
        proof {
            reveal_strlit("3");
            assert(s@ =~= seq![spec_digit_char(3)]);
        }
        s
    } else if d == 4 {
        let s = "4";
        proof {
            reveal_strlit("4");
            assert(s@ =~= seq![spec_digit_char(4)]);
        }
        s
    } else if d == 5 {
        let s = "5";
        proof {
            reveal_strlit("5");
            assert(s@ =~= seq![spec_digit_char(5)]);
        }
        s
    } else if d == 6 {
        let s = "6";
        proof {
            reveal_strlit("6");
            assert(s@ =~= seq![spec_digit_char(6)]);
        }
        s
    } else if d == 7 {
        let s = "7";
        proof {
            reveal_strlit("7");
            assert(s@ =~= seq![spec_digit_char(7)]);
        }
        s
    } else if d == 8 {
        let s = "8";
        proof {
            reveal_strlit("8");
            assert(s@ =~= seq![spec_digit_char(8)]);
        }
        s
    } else {
        let s = "9";
        proof {
            reveal_strlit("9");
            assert(s@ =~= seq![spec_digit_char(9)]);
        }
        s
    }
}

/// The decimal digit string of `n`.
pub fn dec_digits_string(n: u64) -> (r: String)
    ensures
        r@ == spec_dec_digits(n as nat),
    decreases n,
{
    if n < 10 {
        digit_str(n).to_owned()
    } else {
        let mut s = dec_digits_string(n / 10);
        s.append(digit_str(n % 10));
        proof {
            assert(s@ =~= spec_dec_digits(n as nat));
        }
        s
    }
}

/// Append the wire form of `n` to `out`.
fn write_u64(out: &mut String, n: u64)
    ensures
        final(out)@ == old(out)@ + spec_enc_u64(n as nat),
{
    let digits = dec_digits_string(n);
    out.append(digits.as_str());
    out.append(";");
    proof {
        reveal_strlit(";");
        assert(final(out)@ =~= old(out)@ + spec_enc_u64(n as nat));
    }
}

/// The value of the digit `c`, or nothing if `c` is no digit.
fn char_digit_val(c: char) -> (r: Option<u64>)
    ensures
        match r {
            Some(d) => spec_is_digit(c) && d < 10 && d as int == spec_digit_val(c),
            None => !spec_is_digit(c),
        },
{
    if c == '0' {
        Some(0)
    } else if c == '1' {
        Some(1)
    } else if c == '2' {
        Some(2)
    } else if c == '3' {
        Some(3)
    } else if c == '4' {
        Some(4)
    } else if c == '5' {
        Some(5)
    } else if c == '6' {
        Some(6)
    } else if c == '7' {
        Some(7)
    } else if c == '8' {
        Some(8)
    } else if c == '9' {
        Some(9)
    } else {
        None
    }
}

/// Read a terminated number starting at `pos`. Whatever the input, if it
/// starts with the wire form of some `n`, the parse returns exactly `n`
/// and stops right after the terminator.
pub fn parse_u64(s: &str, pos: usize) -> (r: Option<(u64, usize)>)
    requires
        pos <= s@.len(),
    ensures
        forall|n: u64, rest: Seq<char>|
            s@.skip(pos as int) == spec_enc_u64(n as nat) + rest ==> (r matches Some(p) && p.0
                == n && p.1 == pos + spec_dec_digits(n as nat).len() + 1),
        r matches Some(p) ==> pos < p.1 <= s@.len() && s@.subrange(pos as int, p.1 as int)
            == spec_enc_u64(p.0 as nat),
{
    let len = s.unicode_len();
    let mut i: usize = pos;
    let mut acc: u64 = 0;
    while i < len
        invariant_except_break
            pos <= i <= len,
            pos <= s@.len(),
            len == s@.len(),
            forall|j: int| pos <= j < i ==> spec_is_digit(#[trigger] s@[j]),
            acc == spec_digits_value(s@.subrange(pos as int, i as int)),
        ensures
            pos <= i <= len,
            len == s@.len(),
            forall|j: int| pos <= j < i ==> spec_is_digit(#[trigger] s@[j]),
            acc == spec_digits_value(s@.subrange(pos as int, i as int)),
            i == len || !spec_is_digit(s@[i as int]),
        decreases len - i,
    {
        let c = s.get_char(i);
        match char_digit_val(c) {
            Some(d) => {
                proof {
                    assert(s@.subrange(pos as int, i as int + 1).drop_last() =~= s@.subrange(
                        pos as int,
                        i as int,
                    ));
                    assert(s@.subrange(pos as int, i as int + 1).last() == s@[i as int]);
                }
                if acc > (u64::MAX - d) / 10 {
                    // The number would not fit; no in-range encoding can
                    // reach this point.
                    proof {
                        assert forall|n: u64, rest: Seq<char>|
                            s@.skip(pos as int) == spec_enc_u64(n as nat)
                                + rest implies false by {
                            lemma_enc_u64_at(s@, pos as int, n as nat, rest);
                            let ds = spec_dec_digits(n as nat);
                            let dlen = ds.len() as int;
                            assert(i - pos < dlen) by {
                                if i - pos >= dlen {
                                    assert(spec_is_digit(s@[pos + dlen]));
                                }
                            }
                            assert(s@.subrange(pos as int, i as int) =~= ds.take(i - pos));
                            assert(s@[i as int] == ds[i - pos]);
                            lemma_digits_value_prefix(ds, i - pos + 1);
                            assert(ds.take(i - pos + 1).drop_last() =~= ds.take(i - pos));
                            assert(ds.take(i - pos + 1).last() == ds[i - pos]);
                            assert(spec_digits_value(ds.take(i - pos + 1)) == acc * 10 + d);
                            assert(acc * 10 + d <= n);
                        }
                    }
                    return None;
                }
                acc = acc * 10 + d;
                i += 1;
            },
            None => {
                break ;
            },
        }
    }
    if i == pos {
        proof {
            assert forall|n: u64, rest: Seq<char>|
                s@.skip(pos as int) == spec_enc_u64(n as nat) + rest implies false by {
                lemma_enc_u64_at(s@, pos as int, n as nat, rest);
                let ds = spec_dec_digits(n as nat);
                assert(spec_is_digit(s@[pos as int + 0]));
                assert(pos as int + ds.len() + 1 <= s@.len());
                assert((i as int) < (len as int));
                assert(!spec_is_digit(s@[i as int]));
            }
        }
        return None;
    }
    if i == len {
        proof {
            assert forall|n: u64, rest: Seq<char>|
                s@.skip(pos as int) == spec_enc_u64(n as nat) + rest implies false by {
                lemma_enc_u64_at(s@, pos as int, n as nat, rest);
                let dlen = spec_dec_digits(n as nat).len() as int;
                assert(s@[pos + dlen] == ';');
                assert(pos + dlen < len);
                assert(spec_is_digit(s@[pos + dlen]));
            }
        }
        return None;
    }
    let c = s.get_char(i);
    if c != ';' {
        proof {
            assert forall|n: u64, rest: Seq<char>|
                s@.skip(pos as int) == spec_enc_u64(n as nat) + rest implies false by {
                lemma_enc_u64_at(s@, pos as int, n as nat, rest);
                let ds = spec_dec_digits(n as nat);
                let dlen = ds.len() as int;
                assert(i - pos == dlen) by {
                    if i - pos < dlen {
                        assert(s@[i as int] == ds[i - pos]);
                        assert(spec_is_digit(s@[i as int]));
                    }
                    if i - pos > dlen {
                        assert(spec_is_digit(s@[pos + dlen]));
                    }
                }
                assert(s@[i as int] == ';');
            }
        }
        return None;
    }
    if i > pos + 1 && s.get_char(pos) == '0' {
        // The encoder never writes a leading zero, so a padded number is
        // no encoding and is refused.
        proof {
            assert forall|n: u64, rest: Seq<char>|
                s@.skip(pos as int) == spec_enc_u64(n as nat) + rest implies false by {
                lemma_enc_u64_at(s@, pos as int, n as nat, rest);
                let ds = spec_dec_digits(n as nat);
                let dlen = ds.len() as int;
                assert(i - pos == dlen) by {
                    if i - pos < dlen {
                        assert(s@[i as int] == ds[i - pos]);
                        assert(spec_is_digit(s@[i as int]));
                        assert(!spec_is_digit(';'));
                    }
                    if i - pos > dlen {
                        assert(spec_is_digit(s@[pos + dlen]));
                        assert(!spec_is_digit(';'));
                    }
                }
                lemma_dec_digits_no_leading_zero(n as nat);
                assert(ds[0] == s@[pos + 0]);
                assert(ds[0] != '0');
            }
        }
        return None;
    }
    proof {
        let ds = s@.subrange(pos as int, i as int);
        assert(ds.len() >= 1);
        assert(forall|j: int| 0 <= j < ds.len() ==> spec_is_digit(#[trigger] ds[j]));
        if ds.len() >= 2 {
            assert(ds[0] == s@[pos as int]);
            assert(ds[0] != '0');
        }
        lemma_digits_canonical(ds);
        assert(spec_dec_digits(acc as nat) == ds);
        assert(s@.subrange(pos as int, i as int + 1) =~= ds + seq![';']);
        assert(s@.subrange(pos as int, i as int + 1) == spec_enc_u64(acc as nat));
    }
    proof {
        assert forall|n: u64, rest: Seq<char>|
            s@.skip(pos as int) == spec_enc_u64(n as nat) + rest implies acc == n && i + 1 == pos
            + spec_dec_digits(n as nat).len() + 1 by {
            lemma_enc_u64_at(s@, pos as int, n as nat, rest);
            let ds = spec_dec_digits(n as nat);
            let dlen = ds.len() as int;
            assert(i - pos == dlen) by {
                if i - pos < dlen {
                    assert(s@[i as int] == ds[i - pos]);
                    assert(spec_is_digit(s@[i as int]));
                    assert(s@[i as int] == ';');
                }
                if i - pos > dlen {
                    assert(spec_is_digit(s@[pos + dlen]));
                }
            }
            assert(s@.subrange(pos as int, i as int) =~= ds);
            assert(acc == spec_digits_value(ds));
        }
    }
    Some((acc, i + 1))
}

/// A string on the wire: its character count, then its characters
/// verbatim.
pub open spec fn spec_enc_str(t: Seq<char>) -> Seq<char> {
    spec_enc_u64(t.len()) + t
}

/// Append the wire form of `t` to `out`.
fn write_str(out: &mut String, t: &str)
    ensures
        final(out)@ == old(out)@ + spec_enc_str(t@),
{
    let l = t.unicode_len();
    write_u64(out, l as u64);
    out.append(t);
    proof {
        assert(final(out)@ =~= old(out)@ + spec_enc_str(t@));
    }
}

/// Read a counted string starting at `pos`.
fn parse_str(s: &str, pos: usize) -> (r: Option<(String, usize)>)
    requires
        pos <= s@.len(),
    ensures
        forall|t: Seq<char>, rest: Seq<char>|
            s@.skip(pos as int) == spec_enc_str(t) + rest ==> (r matches Some(p) && p.0@ == t
                && p.1 == pos + spec_enc_str(t).len()),
        r matches Some(p) ==> pos < p.1 <= s@.len() && s@.subrange(pos as int, p.1 as int)
            == spec_enc_str(p.0@),
{
    let len = s.unicode_len();
    let parsed = parse_u64(s, pos);
    match parsed {
        Some((l, p1)) => {
            if l > (len - p1) as u64 {
                proof {
                    assert forall|t: Seq<char>, rest: Seq<char>|
                        s@.skip(pos as int) == spec_enc_str(t) + rest implies false by {
                        let n = t.len() as u64;
                        assert(s@.skip(pos as int) == spec_enc_u64(n as nat) + (t + rest));
                        assert(l == n && p1 == pos + spec_dec_digits(n as nat).len() + 1);
                        assert(s@.skip(pos as int).len() == spec_enc_u64(n as nat).len() + t.len()
                            + rest.len());
                    }
                }
                return None;
            }
            let end = p1 + (l as usize);
            let sub = s.substring_char(p1, end).to_owned();
            proof {
                assert(sub@ == s@.subrange(p1 as int, end as int));
                assert(sub@.len() == l as nat);
                lemma_subrange_join(s@, pos as int, p1 as int, end as int);
                assert(s@.subrange(pos as int, end as int) == spec_enc_u64(l as nat) + sub@);
                assert(s@.subrange(pos as int, end as int) == spec_enc_str(sub@));
            }
            proof {
                assert forall|t: Seq<char>, rest: Seq<char>|
                    s@.skip(pos as int) == spec_enc_str(t) + rest implies sub@ == t && end == pos
                    + spec_enc_str(t).len() by {
                    let n = t.len() as u64;
                    assert(s@.skip(pos as int) == spec_enc_u64(n as nat) + (t + rest));
                    assert(l == n && p1 == pos + spec_dec_digits(n as nat).len() + 1);
                    assert(sub@ == s@.subrange(p1 as int, end as int));
                    assert forall|j: int| 0 <= j < t.len() implies s@.subrange(
                        p1 as int,
                        end as int,
                    )[j] == t[j] by {
                        assert(s@.skip(pos as int)[p1 - pos + j] == s@[p1 + j]);
                        assert((spec_enc_u64(n as nat) + (t + rest))[p1 - pos + j] == t[j]);
                    }
                    assert(sub@ =~= t);
                }
            }
            Some((sub, end))
        },
        None => {
            proof {
                assert forall|t: Seq<char>, rest: Seq<char>|
                    s@.skip(pos as int) == spec_enc_str(t) + rest implies false by {
                    let n = t.len() as u64;
                    assert(s@.skip(pos as int) == spec_enc_u64(n as nat) + (t + rest));
                }
            }
            None
        },
    }
}

/// Read a number that must fit a narrow field.
fn parse_u32(s: &str, pos: usize) -> (r: Option<(u32, usize)>)
    requires
        pos <= s@.len(),
    ensures
        forall|n: u32, rest: Seq<char>|
            s@.skip(pos as int) == spec_enc_u64(n as nat) + rest ==> (r matches Some(p) && p.0
                == n && p.1 == pos + spec_enc_u64(n as nat).len()),
        r matches Some(p) ==> pos < p.1 <= s@.len() && s@.subrange(pos as int, p.1 as int)
            == spec_enc_u64(p.0 as nat),
{
    match parse_u64(s, pos) {
        Some((n, p)) => {
            if n > u32::MAX as u64 {
                proof {
                    assert forall|n2: u32, rest: Seq<char>|
                        s@.skip(pos as int) == spec_enc_u64(n2 as nat) + rest implies false by {
                        assert(n == n2 as u64);
                    }
                }
                return None;
            }
            Some((n as u32, p))
        },
        None => None,
    }
}

/// Read one expected character.
fn parse_exact(s: &str, pos: usize, expected: char) -> (r: Option<usize>)
    requires
        pos <= s@.len(),
    ensures
        forall|rest: Seq<char>|
            s@.skip(pos as int) == seq![expected] + rest ==> r == Some((pos + 1) as usize),
        r matches Some(p) ==> pos < s@.len() && s@[pos as int] == expected && p == pos + 1
            && s@.subrange(pos as int, p as int) == seq![expected],
{
    let len = s.unicode_len();
    if pos >= len {
        proof {
            assert forall|rest: Seq<char>|
                s@.skip(pos as int) == seq![expected] + rest implies false by {
                assert(s@.skip(pos as int).len() == 0);
            }
        }
        return None;
    }
    let c = s.get_char(pos);
    if c == expected {
        proof {
            assert(s@.subrange(pos as int, pos as int + 1) =~= seq![expected]);
        }
        Some(pos + 1)
    } else {
        proof {
            assert forall|rest: Seq<char>|
                s@.skip(pos as int) == seq![expected] + rest implies false by {
                assert(s@.skip(pos as int)[0] == s@[pos as int]);
                assert((seq![expected] + rest)[0] == expected);
            }
        }
        None
    }
}


/// Dropping a known prefix off a suffix of the input lands exactly after
/// that prefix.
proof fn lemma_skip_concat(s: Seq<char>, pos: int, a: Seq<char>, b: Seq<char>)
    requires
        0 <= pos <= s.len(),
        s.skip(pos) == a + b,
    ensures
        pos + a.len() <= s.len(),
        s.skip(pos + a.len()) == b,
{
    assert(s.skip(pos).len() == s.len() - pos);
    assert forall|j: int| 0 <= j < b.len() implies s.skip(pos + a.len())[j] == b[j] by {
        assert(s.skip(pos + a.len())[j] == s[pos + a.len() + j]);
        assert(s.skip(pos)[a.len() + j] == s[pos + a.len() + j]);
        assert((a + b)[a.len() + j] == b[j]);
    }
    assert(s.skip(pos + a.len()) =~= b);
}

/// A report kind on the wire: one tag character.
pub open spec fn spec_enc_report_type(rt: ReportType) -> Seq<char> {
    match rt {
        ReportType::Report => seq!['r'],
        ReportType::Witness => seq!['w'],
    }
}

/// Append the wire form of `rt` to `out`.
fn write_report_type(out: &mut String, rt: ReportType)
    ensures
        final(out)@ == old(out)@ + spec_enc_report_type(rt),
{
    match rt {
        ReportType::Report => {
            out.append("r");
            proof {
                reveal_strlit("r");
                assert(final(out)@ =~= old(out)@ + spec_enc_report_type(rt));
            }
        },
        ReportType::Witness => {
            out.append("w");
            proof {
                reveal_strlit("w");
                assert(final(out)@ =~= old(out)@ + spec_enc_report_type(rt));
            }
        },
    }
}

/// Read a report kind.
fn parse_report_type(s: &str, pos: usize) -> (r: Option<(ReportType, usize)>)
    requires
        pos <= s@.len(),
    ensures
        forall|rt: ReportType, rest: Seq<char>|
            s@.skip(pos as int) == spec_enc_report_type(rt) + rest ==> (r matches Some(p) && p.0
                == rt && p.1 == pos + 1),
        r matches Some(p) ==> pos < p.1 <= s@.len() && s@.subrange(pos as int, p.1 as int)
            == spec_enc_report_type(p.0),
{
    let len = s.unicode_len();
    if pos >= len {
        proof {
            assert forall|rt: ReportType, rest: Seq<char>|
                s@.skip(pos as int) == spec_enc_report_type(rt) + rest implies false by {
                assert(s@.skip(pos as int).len() == 0);
                assert(spec_enc_report_type(rt).len() == 1);
            }
        }
        return None;
    }
    let c = s.get_char(pos);
    proof {
        assert(s@.skip(pos as int)[0] == s@[pos as int]);
    }
    if c == 'r' {
        proof {
            assert(s@.subrange(pos as int, pos as int + 1) =~= seq!['r']);
        }
        return Some((ReportType::Report, pos + 1));
    }
    if c == 'w' {
        proof {
            assert(s@.subrange(pos as int, pos as int + 1) =~= seq!['w']);
        }
        return Some((ReportType::Witness, pos + 1));
    }
    proof {
        assert forall|rt: ReportType, rest: Seq<char>|
            s@.skip(pos as int) == spec_enc_report_type(rt) + rest implies false by {
            assert((spec_enc_report_type(rt) + rest)[0] == spec_enc_report_type(rt)[0]);
        }
    }
    None
}

/// An optional number on the wire: an absent marker, or a present marker
/// followed by the number.
pub open spec fn spec_enc_opt_u32(o: Option<u32>) -> Seq<char> {
    match o {
        Option::None => seq!['n'],
        Option::Some(x) => seq!['s'] + spec_enc_u64(x as nat),
    }
}

/// Append the wire form of `o` to `out`.
fn write_opt_u32(out: &mut String, o: Option<u32>)
    ensures
        final(out)@ == old(out)@ + spec_enc_opt_u32(o),
{
    match o {
        None => {
            out.append("n");
            proof {
                reveal_strlit("n");
                assert(final(out)@ =~= old(out)@ + spec_enc_opt_u32(o));
            }
        },
        Some(x) => {
            out.append("s");
            proof {
                reveal_strlit("s");
            }
            write_u64(out, x as u64);
            proof {
                assert(final(out)@ =~= old(out)@ + spec_enc_opt_u32(o));
            }
        },
    }
}

/// Read an optional number.
fn parse_opt_u32(s: &str, pos: usize) -> (r: Option<(Option<u32>, usize)>)
    requires
        pos <= s@.len(),
    ensures
        forall|o: Option<u32>, rest: Seq<char>|
            s@.skip(pos as int) == spec_enc_opt_u32(o) + rest ==> (r matches Some(p) && p.0 == o
                && p.1 == pos + spec_enc_opt_u32(o).len()),
        r matches Some(p) ==> pos < p.1 <= s@.len() && s@.subrange(pos as int, p.1 as int)
            == spec_enc_opt_u32(p.0),
{
    let len = s.unicode_len();
    if pos >= len {
        proof {
            assert forall|o: Option<u32>, rest: Seq<char>|
                s@.skip(pos as int) == spec_enc_opt_u32(o) + rest implies false by {
                assert(s@.skip(pos as int).len() == 0);
                assert(spec_enc_opt_u32(o).len() >= 1);
            }
        }
        return None;
    }
    let c = s.get_char(pos);
    proof {
        assert(s@.skip(pos as int)[0] == s@[pos as int]);
    }
    if c == 'n' {
        proof {
            assert forall|o: Option<u32>, rest: Seq<char>|
                s@.skip(pos as int) == spec_enc_opt_u32(o) + rest implies o is None by {
                assert((spec_enc_opt_u32(o) + rest)[0] == spec_enc_opt_u32(o)[0]);
            }
            assert(s@.subrange(pos as int, pos as int + 1) =~= seq!['n']);
        }
        return Some((None, pos + 1));
    }
    if c == 's' {
        let inner = parse_u32(s, pos + 1);
        match inner {
            Some((x, p)) => {
                proof {
                    assert forall|o: Option<u32>, rest: Seq<char>|
                        s@.skip(pos as int) == spec_enc_opt_u32(o) + rest implies o == Some(x)
                        && p == pos + spec_enc_opt_u32(o).len() by {
                        assert((spec_enc_opt_u32(o) + rest)[0] == spec_enc_opt_u32(o)[0]);
                        assert(o is Some);
                        let x2 = o->0;
                        assert(s@.skip(pos as int) =~= seq!['s'] + (spec_enc_u64(x2 as nat)
                            + rest));
                        lemma_skip_concat(
                            s@,
                            pos as int,
                            seq!['s'],
                            spec_enc_u64(x2 as nat) + rest,
                        );
                    }
                    assert(s@.subrange(pos as int, pos as int + 1) =~= seq!['s']);
                    lemma_subrange_join(s@, pos as int, pos as int + 1, p as int);
                    assert(s@.subrange(pos as int, p as int) == seq!['s'] + spec_enc_u64(
                        x as nat,
                    ));
                    assert(s@.subrange(pos as int, p as int) == spec_enc_opt_u32(Some(x)));
                }
                Some((Some(x), p))
            },
            None => {
                proof {
                    assert forall|o: Option<u32>, rest: Seq<char>|
                        s@.skip(pos as int) == spec_enc_opt_u32(o) + rest implies false by {
                        assert((spec_enc_opt_u32(o) + rest)[0] == spec_enc_opt_u32(o)[0]);
                        assert(o is Some);
                        let x2 = o->0;
                        assert(s@.skip(pos as int) =~= seq!['s'] + (spec_enc_u64(x2 as nat)
                            + rest));
                        lemma_skip_concat(
                            s@,
                            pos as int,
                            seq!['s'],
                            spec_enc_u64(x2 as nat) + rest,
                        );
                    }
                }
                None
            },
        }
    } else {
        proof {
            assert forall|o: Option<u32>, rest: Seq<char>|
                s@.skip(pos as int) == spec_enc_opt_u32(o) + rest implies false by {
                assert((spec_enc_opt_u32(o) + rest)[0] == spec_enc_opt_u32(o)[0]);
            }
        }
        None
    }
}

/// A message on the wire: its tag, then every field in order.
pub open spec fn spec_enc_message(m: MessageModel) -> Seq<char> {
    seq!['M'] + spec_enc_str(m.protocol_information) + spec_enc_u64(m.id as nat) + spec_enc_str(
        m.message,
    ) + spec_enc_opt_u32(m.dimension) + spec_enc_opt_u32(m.instance_number) + spec_enc_u64(
        m.round_number as nat,
    )
}

/// Append the wire form of `m` to `out`.
pub fn write_message(out: &mut String, m: &Message)
    ensures
        final(out)@ == old(out)@ + spec_enc_message(m@),
{
    out.append("M");
    proof {
        reveal_strlit("M");
    }
    write_str(out, m.protocol_information.as_str());
    write_u64(out, m.id as u64);
    write_str(out, m.message.as_str());
    write_opt_u32(out, m.dimension);
    write_opt_u32(out, m.instance_number);
    write_u64(out, m.round_number as u64);
    proof {
        assert(final(out)@ =~= old(out)@ + spec_enc_message(m@));
    }
}

/// An input that starts with a message encoding, cut apart one field at
/// a time: where each field's encoding begins and what follows it.
#[verifier::rlimit(100)]
proof fn lemma_message_decompose(s: Seq<char>, pos: int, m: MessageModel, rest: Seq<char>)
    requires
        0 <= pos <= s.len(),
        s.skip(pos) == spec_enc_message(m) + rest,
    ensures
        ({
            let e1 = spec_enc_str(m.protocol_information);
            let e2 = spec_enc_u64(m.id as nat);
            let e3 = spec_enc_str(m.message);
            let e4 = spec_enc_opt_u32(m.dimension);
            let e5 = spec_enc_opt_u32(m.instance_number);
            let e6 = spec_enc_u64(m.round_number as nat);
            let q1 = pos + 1;
            let q2 = q1 + e1.len();
            let q3 = q2 + e2.len();
            let q4 = q3 + e3.len();
            let q5 = q4 + e4.len();
            let q6 = q5 + e5.len();
            let q7 = q6 + e6.len();
            &&& s.skip(pos) == seq!['M'] + (e1 + (e2 + (e3 + (e4 + (e5 + (e6 + rest))))))
            &&& s.skip(q1) == e1 + (e2 + (e3 + (e4 + (e5 + (e6 + rest)))))
            &&& s.skip(q2) == e2 + (e3 + (e4 + (e5 + (e6 + rest))))
            &&& s.skip(q3) == e3 + (e4 + (e5 + (e6 + rest)))
            &&& s.skip(q4) == e4 + (e5 + (e6 + rest))
            &&& s.skip(q5) == e5 + (e6 + rest)
            &&& s.skip(q6) == e6 + rest
            &&& q7 == pos + spec_enc_message(m).len()
            &&& q7 <= s.len()
        }),
{
    let e1 = spec_enc_str(m.protocol_information);
    let e2 = spec_enc_u64(m.id as nat);
    let e3 = spec_enc_str(m.message);
    let e4 = spec_enc_opt_u32(m.dimension);
    let e5 = spec_enc_opt_u32(m.instance_number);
    let e6 = spec_enc_u64(m.round_number as nat);
    assert(s.skip(pos) =~= seq!['M'] + (e1 + (e2 + (e3 + (e4 + (e5 + (e6 + rest)))))));
    lemma_skip_concat(s, pos, seq!['M'], e1 + (e2 + (e3 + (e4 + (e5 + (e6 + rest))))));
    lemma_skip_concat(s, pos + 1, e1, e2 + (e3 + (e4 + (e5 + (e6 + rest)))));
    lemma_skip_concat(s, pos + 1 + e1.len(), e2, e3 + (e4 + (e5 + (e6 + rest))));
    lemma_skip_concat(s, pos + 1 + e1.len() + e2.len(), e3, e4 + (e5 + (e6 + rest)));
    lemma_skip_concat(s, pos + 1 + e1.len() + e2.len() + e3.len(), e4, e5 + (e6 + rest));
    lemma_skip_concat(s, pos + 1 + e1.len() + e2.len() + e3.len() + e4.len(), e5, e6 + rest);
    lemma_skip_concat(s, pos + 1 + e1.len() + e2.len() + e3.len() + e4.len() + e5.len(), e6, rest);
}

/// Read a message starting at `pos`: the exact inverse of
/// `write_message`.
#[verifier::rlimit(100)]
pub fn parse_message(s: &str, pos: usize) -> (r: Option<(Message, usize)>)
    requires
        pos <= s@.len(),
    ensures
        forall|m: MessageModel, rest: Seq<char>|
            s@.skip(pos as int) == spec_enc_message(m) + rest ==> (r matches Some(p) && p.0@ == m
                && p.1 == pos + spec_enc_message(m).len()),
        r matches Some(p) ==> pos < p.1 <= s@.len() && s@.subrange(pos as int, p.1 as int)
            == spec_enc_message(p.0@),
{
    let step0 = parse_exact(s, pos, 'M');
    let p1 = match step0 {
        Some(p) => p,
        None => {
            proof {
                assert forall|m: MessageModel, rest: Seq<char>|
                    s@.skip(pos as int) == spec_enc_message(m) + rest implies false by {
                    lemma_message_decompose(s@, pos as int, m, rest);
                }
            }
            return None;
        },
    };
    let step1 = parse_str(s, p1);
    let (protocol_information, p2) = match step1 {
        Some(p) => p,
        None => {
            proof {
                assert forall|m: MessageModel, rest: Seq<char>|
                    s@.skip(pos as int) == spec_enc_message(m) + rest implies false by {
                    lemma_message_decompose(s@, pos as int, m, rest);
                }
            }
            return None;
        },
    };
    let step2 = parse_u32(s, p2);
    let (id, p3) = match step2 {
        Some(p) => p,
        None => {
            proof {
                assert forall|m: MessageModel, rest: Seq<char>|
                    s@.skip(pos as int) == spec_enc_message(m) + rest implies false by {
                    lemma_message_decompose(s@, pos as int, m, rest);
                }
            }
            return None;
        },
    };
    let step3 = parse_str(s, p3);
    let (message, p4) = match step3 {
        Some(p) => p,
        None => {
            proof {
                assert forall|m: MessageModel, rest: Seq<char>|
                    s@.skip(pos as int) == spec_enc_message(m) + rest implies false by {
                    lemma_message_decompose(s@, pos as int, m, rest);
                }
            }
            return None;
        },
    };
    let step4 = parse_opt_u32(s, p4);
    let (dimension, p5) = match step4 {
        Some(p) => p,
        None => {
            proof {
                assert forall|m: MessageModel, rest: Seq<char>|
                    s@.skip(pos as int) == spec_enc_message(m) + rest implies false by {
                    lemma_message_decompose(s@, pos as int, m, rest);
                }
            }
            return None;
        },
    };
    let step5 = parse_opt_u32(s, p5);
    let (instance_number, p6) = match step5 {
        Some(p) => p,
        None => {
            proof {
                assert forall|m: MessageModel, rest: Seq<char>|
                    s@.skip(pos as int) == spec_enc_message(m) + rest implies false by {
                    lemma_message_decompose(s@, pos as int, m, rest);
                }
            }
            return None;
        },
    };
    let step6 = parse_u32(s, p6);
    let (round_number, p7) = match step6 {
        Some(p) => p,
        None => {
            proof {
                assert forall|m: MessageModel, rest: Seq<char>|
                    s@.skip(pos as int) == spec_enc_message(m) + rest implies false by {
                    lemma_message_decompose(s@, pos as int, m, rest);
                }
            }
            return None;
        },
    };
    let result = Message {
        protocol_information,
        id,
        message,
        dimension,
        instance_number,
        round_number,
    };
    proof {
        assert forall|m: MessageModel, rest: Seq<char>|
            s@.skip(pos as int) == spec_enc_message(m) + rest implies result@ == m && p7 == pos
            + spec_enc_message(m).len() by {
            lemma_message_decompose(s@, pos as int, m, rest);
            assert(result@ =~= m);
        }
    }
    proof {
        lemma_subrange_join(s@, pos as int, p1 as int, p2 as int);
        lemma_subrange_join(s@, pos as int, p2 as int, p3 as int);
        lemma_subrange_join(s@, pos as int, p3 as int, p4 as int);
        lemma_subrange_join(s@, pos as int, p4 as int, p5 as int);
        lemma_subrange_join(s@, pos as int, p5 as int, p6 as int);
        lemma_subrange_join(s@, pos as int, p6 as int, p7 as int);
        assert(s@.subrange(pos as int, p7 as int) == spec_enc_message(result@));
    }
    Some((result, p7))
}

/// A run of message encodings, in order.
pub open spec fn spec_enc_messages(ms: Seq<MessageModel>) -> Seq<char>
    decreases ms.len(),
{
    if ms.len() == 0 {
        Seq::empty()
    } else {
        spec_enc_message(ms[0]) + spec_enc_messages(ms.skip(1))
    }
}

/// A message list on the wire: its length, then the messages in order.
pub open spec fn spec_enc_message_list(ms: Seq<MessageModel>) -> Seq<char> {
    spec_enc_u64(ms.len()) + spec_enc_messages(ms)
}

/// Extending a run by one message appends that message's encoding.
proof fn lemma_enc_messages_snoc(ms: Seq<MessageModel>, x: MessageModel)
    ensures
        spec_enc_messages(ms.push(x)) == spec_enc_messages(ms) + spec_enc_message(x),
    decreases ms.len(),
{
    if ms.len() == 0 {
        assert(ms.push(x)[0] == x);
        assert(ms.push(x).skip(1) =~= Seq::<MessageModel>::empty());
        assert(spec_enc_messages(ms.push(x)) == spec_enc_message(x) + spec_enc_messages(
            ms.push(x).skip(1),
        ));
        assert(spec_enc_messages(Seq::<MessageModel>::empty()) == Seq::<char>::empty());
        assert(spec_enc_messages(ms.push(x)) =~= spec_enc_messages(ms) + spec_enc_message(x));
    } else {
        assert(ms.push(x).skip(1) =~= ms.skip(1).push(x));
        lemma_enc_messages_snoc(ms.skip(1), x);
        assert(ms.push(x)[0] == ms[0]);
        assert(spec_enc_messages(ms.push(x)) == spec_enc_message(ms[0]) + spec_enc_messages(
            ms.skip(1).push(x),
        ));
        assert(spec_enc_messages(ms) == spec_enc_message(ms[0]) + spec_enc_messages(ms.skip(1)));
        assert(spec_enc_messages(ms.push(x)) =~= spec_enc_messages(ms) + spec_enc_message(x));
    }
}

/// A run of message encodings is at least as long as the run itself.
proof fn lemma_enc_messages_min_len(ms: Seq<MessageModel>)
    ensures
        spec_enc_messages(ms).len() >= ms.len(),
    decreases ms.len(),
{
    if ms.len() > 0 {
        lemma_enc_messages_min_len(ms.skip(1));
    }
}

/// An input that starts with a message-list encoding: its length fits
/// the machine, its count field reads back, and the run of messages
/// follows.
proof fn lemma_message_list_head(s: Seq<char>, pos: int, ms: Seq<MessageModel>, rest: Seq<char>)
    requires
        0 <= pos <= s.len(),
        s.len() <= usize::MAX,
        s.skip(pos) == spec_enc_message_list(ms) + rest,
    ensures
        ms.len() <= u64::MAX,
        (ms.len() as u64) as nat == ms.len(),
        s.skip(pos) == spec_enc_u64(((ms.len() as u64) as nat)) + (spec_enc_messages(ms) + rest),
        pos + spec_enc_u64(ms.len()).len() <= s.len(),
        s.skip(pos + spec_enc_u64(ms.len()).len()) == spec_enc_messages(ms) + rest,
        spec_enc_messages(ms).len() >= ms.len(),
{
    lemma_enc_messages_min_len(ms);
    assert(s.skip(pos).len() == s.len() - pos);
    assert(spec_enc_message_list(ms).len() >= ms.len());
    assert(ms.len() <= s.len());
    assert(s.skip(pos) =~= spec_enc_u64(ms.len()) + (spec_enc_messages(ms) + rest));
    lemma_skip_concat(s, pos, spec_enc_u64(ms.len()), spec_enc_messages(ms) + rest);
}

/// Append the wire form of the message list `v` to `out`.
fn write_messages(out: &mut String, v: &Vec<Message>)
    ensures
        final(out)@ == old(out)@ + spec_enc_message_list(v@.map_values(|m: Message| m@)),
{
    let ghost ms = v@.map_values(|m: Message| m@);
    write_u64(out, v.len() as u64);
    let mut i: usize = 0;
    while i < v.len()
        invariant
            0 <= i <= v.len(),
            ms == v@.map_values(|m: Message| m@),
            out@ == old(out)@ + spec_enc_u64(ms.len()) + spec_enc_messages(ms.take(i as int)),
        decreases v.len() - i,
    {
        write_message(out, &v[i]);
        proof {
            assert(ms.take(i as int).push(ms[i as int]) =~= ms.take(i as int + 1));
            lemma_enc_messages_snoc(ms.take(i as int), ms[i as int]);
            assert(out@ =~= old(out)@ + spec_enc_u64(ms.len()) + spec_enc_messages(
                ms.take(i as int + 1),
            ));
        }
        i += 1;
    }
    proof {
        assert(ms.take(ms.len() as int) =~= ms);
        assert(final(out)@ =~= old(out)@ + spec_enc_message_list(ms));
    }
}

/// Read a message list starting at `pos`: the exact inverse of
/// `write_messages`.
#[verifier::rlimit(100)]
fn parse_messages(s: &str, pos: usize) -> (r: Option<(Vec<Message>, usize)>)
    requires
        pos <= s@.len(),
    ensures
        forall|ms: Seq<MessageModel>, rest: Seq<char>|
            s@.skip(pos as int) == spec_enc_message_list(ms) + rest ==> (r matches Some(p)
                && p.0@.map_values(|m: Message| m@) == ms && p.1 == pos + spec_enc_message_list(
                ms,
            ).len()),
        r matches Some(p) ==> pos <= p.1 <= s@.len() && s@.subrange(pos as int, p.1 as int)
            == spec_enc_message_list(p.0@.map_values(|m: Message| m@)),
{
    let len = s.unicode_len();
    let counted = parse_u64(s, pos);
    let (count, p1) = match counted {
        Some(p) => p,
        None => {
            proof {
                assert forall|ms: Seq<MessageModel>, rest: Seq<char>|
                    s@.skip(pos as int) == spec_enc_message_list(ms) + rest implies false by {
                    lemma_message_list_head(s@, pos as int, ms, rest);
                }
            }
            return None;
        },
    };
    if count > (len - p1) as u64 {
        proof {
            assert forall|ms: Seq<MessageModel>, rest: Seq<char>|
                s@.skip(pos as int) == spec_enc_message_list(ms) + rest implies false by {
                lemma_message_list_head(s@, pos as int, ms, rest);
                let n = ms.len() as u64;
                assert(count == n && p1 == pos + spec_dec_digits(n as nat).len() + 1);
                assert(s@.skip(p1 as int).len() == s@.len() - p1);
                assert(s@.skip(p1 as int).len() == spec_enc_messages(ms).len() + rest.len());
            }
        }
        return None;
    }
    let mut v: Vec<Message> = Vec::new();
    let mut cur: usize = p1;
    let mut i: u64 = 0;
    proof {
        assert(v@.map_values(|m: Message| m@) =~= Seq::<MessageModel>::empty());
        assert(s@.subrange(p1 as int, p1 as int) =~= Seq::<char>::empty());
        assert(spec_enc_messages(v@.map_values(|m: Message| m@)) == Seq::<char>::empty());
    }
    proof {
        assert forall|ms: Seq<MessageModel>, rest: Seq<char>|
            s@.skip(pos as int) == spec_enc_message_list(ms) + rest implies {
            &&& count == ms.len()
            &&& v@.map_values(|m: Message| m@) == ms.take(0)
            &&& s@.skip(cur as int) == spec_enc_messages(ms.skip(0)) + rest
        } by {
            lemma_message_list_head(s@, pos as int, ms, rest);
            let n = ms.len() as u64;
            assert(count == n && p1 == pos + spec_dec_digits(n as nat).len() + 1);
            assert(v@.map_values(|m: Message| m@) =~= ms.take(0));
            assert(ms.skip(0) =~= ms);
        }
    }
    while i < count
        invariant
            0 <= i <= count,
            pos <= p1 <= cur <= s@.len(),
            v@.len() == i,
            s@.subrange(pos as int, p1 as int) == spec_enc_u64(count as nat),
            s@.subrange(p1 as int, cur as int) == spec_enc_messages(
                v@.map_values(|m: Message| m@),
            ),
            forall|ms: Seq<MessageModel>, rest: Seq<char>|
                s@.skip(pos as int) == spec_enc_message_list(ms) + rest ==> {
                    &&& count == ms.len()
                    &&& v@.map_values(|m: Message| m@) == ms.take(i as int)
                    &&& s@.skip(cur as int) == spec_enc_messages(ms.skip(i as int)) + rest
                },
        decreases count - i,
    {
        let step = parse_message(s, cur);
        match step {
            Some((m, p)) => {
                let ghost pre_v = v@.map_values(|x: Message| x@);
                let ghost pre_cur = cur;
                v.push(m);
                cur = p;
                proof {
                    assert(v@.map_values(|x: Message| x@) =~= pre_v.push(m@));
                    lemma_enc_messages_snoc(pre_v, m@);
                    lemma_subrange_join(s@, p1 as int, pre_cur as int, p as int);
                    assert(s@.subrange(p1 as int, p as int) == spec_enc_messages(
                        v@.map_values(|x: Message| x@),
                    ));
                }
                proof {
                    assert forall|ms: Seq<MessageModel>, rest: Seq<char>|
                        s@.skip(pos as int) == spec_enc_message_list(ms) + rest implies {
                        &&& count == ms.len()
                        &&& v@.map_values(|x: Message| x@) == ms.take(i as int + 1)
                        &&& s@.skip(cur as int) == spec_enc_messages(ms.skip(i as int + 1)) + rest
                    } by {
                        assert(pre_v == ms.take(i as int));
                        assert(s@.skip(pre_cur as int) == spec_enc_messages(ms.skip(i as int))
                            + rest);
                        assert(ms.skip(i as int)[0] == ms[i as int]);
                        assert(ms.skip(i as int).skip(1) =~= ms.skip(i as int + 1));
                        assert(s@.skip(pre_cur as int) =~= spec_enc_message(ms[i as int]) + (
                        spec_enc_messages(ms.skip(i as int + 1)) + rest));
                        assert(m@ == ms[i as int]);
                        assert(p == pre_cur + spec_enc_message(ms[i as int]).len());
                        lemma_skip_concat(
                            s@,
                            pre_cur as int,
                            spec_enc_message(ms[i as int]),
                            spec_enc_messages(ms.skip(i as int + 1)) + rest,
                        );
                        assert(v@.map_values(|x: Message| x@) =~= ms.take(i as int + 1));
                    }
                }
                i += 1;
            },
            None => {
                proof {
                    assert forall|ms: Seq<MessageModel>, rest: Seq<char>|
                        s@.skip(pos as int) == spec_enc_message_list(ms) + rest implies false by {
                        assert(count == ms.len());
                        assert(s@.skip(cur as int) == spec_enc_messages(ms.skip(i as int))
                            + rest);
                        assert(ms.skip(i as int)[0] == ms[i as int]);
                        assert(ms.skip(i as int).skip(1) =~= ms.skip(i as int + 1));
                        assert(s@.skip(cur as int) =~= spec_enc_message(ms[i as int]) + (
                        spec_enc_messages(ms.skip(i as int + 1)) + rest));
                    }
                }
                return None;
            },
        }
    }
    proof {
        assert forall|ms: Seq<MessageModel>, rest: Seq<char>|
            s@.skip(pos as int) == spec_enc_message_list(ms) + rest implies {
            &&& v@.map_values(|x: Message| x@) == ms
            &&& cur == pos + spec_enc_message_list(ms).len()
        } by {
            assert(count == ms.len());
            assert(v@.map_values(|x: Message| x@) == ms.take(i as int));
            assert(ms.take(i as int) =~= ms);
            assert(s@.skip(cur as int) == spec_enc_messages(ms.skip(i as int)) + rest);
            assert(ms.skip(i as int) =~= Seq::<MessageModel>::empty());
            assert(s@.skip(cur as int).len() == rest.len());
            assert(s@.skip(pos as int).len() == spec_enc_message_list(ms).len() + rest.len());
        }
    }
    proof {
        assert((count as nat) == v@.map_values(|m: Message| m@).len());
        lemma_subrange_join(s@, pos as int, p1 as int, cur as int);
        assert(s@.subrange(pos as int, cur as int) == spec_enc_message_list(
            v@.map_values(|m: Message| m@),
        ));
    }
    Some((v, cur))
}


/// A report on the wire: its tag, then every field in order.
pub open spec fn spec_enc_report(m: ReportModel) -> Seq<char> {
    seq!['R'] + spec_enc_report_type(m.report_type) + spec_enc_str(m.protocol_information) + spec_enc_u64(m.id as nat) + spec_enc_message_list(m.messages) + spec_enc_opt_u32(m.dimension) + spec_enc_u64(m.instance_number as nat) + spec_enc_u64(m.round_number as nat)
}

/// Append the wire form of `m` to `out`.
pub fn write_report(out: &mut String, m: &Report)
    ensures
        final(out)@ == old(out)@ + spec_enc_report(m@),
{
    out.append("R");
    proof {
        reveal_strlit("R");
    }
    write_report_type(out, m.report_type);
    write_str(out, m.protocol_information.as_str());
    write_u64(out, m.id as u64);
    write_messages(out, &m.messages);
    write_opt_u32(out, m.dimension);
    write_u64(out, m.instance_number as u64);
    write_u64(out, m.round_number as u64);
    proof {
        assert(final(out)@ =~= old(out)@ + spec_enc_report(m@));
    }
}

/// An input that starts with a report encoding, cut apart one
/// field at a time.
#[verifier::rlimit(100)]
proof fn lemma_report_decompose(s: Seq<char>, pos: int, m: ReportModel, rest: Seq<char>)
    requires
        0 <= pos <= s.len(),
        s.len() <= usize::MAX,
        s.skip(pos) == spec_enc_report(m) + rest,
    ensures
        ({
            let e1 = spec_enc_report_type(m.report_type);
            let e2 = spec_enc_str(m.protocol_information);
            let e3 = spec_enc_u64(m.id as nat);
            let e4 = spec_enc_message_list(m.messages);
            let e5 = spec_enc_opt_u32(m.dimension);
            let e6 = spec_enc_u64(m.instance_number as nat);
            let e7 = spec_enc_u64(m.round_number as nat);
            let q1 = pos + 1;
            let q2 = q1 + e1.len();
            let q3 = q2 + e2.len();
            let q4 = q3 + e3.len();
            let q5 = q4 + e4.len();
            let q6 = q5 + e5.len();
            let q7 = q6 + e6.len();
            let q8 = q7 + e7.len();
            &&& s.skip(pos) == seq!['R'] + (e1 + (e2 + (e3 + (e4 + (e5 + (e6 + (e7 + rest)))))))
            &&& s.skip(q1) == e1 + (e2 + (e3 + (e4 + (e5 + (e6 + (e7 + rest))))))
            &&& s.skip(q2) == e2 + (e3 + (e4 + (e5 + (e6 + (e7 + rest)))))
            &&& s.skip(q3) == e3 + (e4 + (e5 + (e6 + (e7 + rest))))
            &&& s.skip(q4) == e4 + (e5 + (e6 + (e7 + rest)))
            &&& s.skip(q5) == e5 + (e6 + (e7 + rest))
            &&& s.skip(q6) == e6 + (e7 + rest)
            &&& s.skip(q7) == e7 + rest
            &&& q8 == pos + spec_enc_report(m).len()
            &&& q8 <= s.len()
        }),
{
    let e1 = spec_enc_report_type(m.report_type);
    let e2 = spec_enc_str(m.protocol_information);
    let e3 = spec_enc_u64(m.id as nat);
    let e4 = spec_enc_message_list(m.messages);
    let e5 = spec_enc_opt_u32(m.dimension);
    let e6 = spec_enc_u64(m.instance_number as nat);
    let e7 = spec_enc_u64(m.round_number as nat);
    assert(s.skip(pos) =~= seq!['R'] + (e1 + (e2 + (e3 + (e4 + (e5 + (e6 + (e7 + rest))))))));
    lemma_skip_concat(s, pos, seq!['R'], (e1 + (e2 + (e3 + (e4 + (e5 + (e6 + (e7 + rest))))))));
    lemma_skip_concat(s, pos + 1, e1, (e2 + (e3 + (e4 + (e5 + (e6 + (e7 + rest)))))));
    lemma_skip_concat(s, pos + 1 + e1.len(), e2, (e3 + (e4 + (e5 + (e6 + (e7 + rest))))));
    lemma_skip_concat(s, pos + 1 + e1.len() + e2.len(), e3, (e4 + (e5 + (e6 + (e7 + rest)))));
    lemma_skip_concat(s, pos + 1 + e1.len() + e2.len() + e3.len(), e4, (e5 + (e6 + (e7 + rest))));
    lemma_skip_concat(s, pos + 1 + e1.len() + e2.len() + e3.len() + e4.len(), e5, (e6 + (e7 + rest)));
    lemma_skip_concat(s, pos + 1 + e1.len() + e2.len() + e3.len() + e4.len() + e5.len(), e6, (e7 + rest));
    lemma_skip_concat(s, pos + 1 + e1.len() + e2.len() + e3.len() + e4.len() + e5.len() + e6.len(), e7, rest);
}

/// Read a report starting at `pos`: the exact inverse of
/// `write_report`.
#[verifier::rlimit(100)]
pub fn parse_report(s: &str, pos: usize) -> (r: Option<(Report, usize)>)
    requires
        pos <= s@.len(),
    ensures
        forall|m: ReportModel, rest: Seq<char>|
            s@.skip(pos as int) == spec_enc_report(m) + rest ==> (r matches Some(p) && p.0@ == m
                && p.1 == pos + spec_enc_report(m).len()),
        r matches Some(p) ==> pos < p.1 <= s@.len() && s@.subrange(pos as int, p.1 as int)
            == spec_enc_report(p.0@),
{
    let _ul: usize = s.unicode_len();
    let step0 = parse_exact(s, pos, 'R');
    let p1 = match step0 {
        Some(p) => p,
        None => {
            proof {
                assert forall|m: ReportModel, rest: Seq<char>|
                    s@.skip(pos as int) == spec_enc_report(m) + rest implies false by {
                    lemma_report_decompose(s@, pos as int, m, rest);
                }
            }
            return None;
        },
    };
    let step1 = parse_report_type(s, p1);
    let (report_type, p2) = match step1 {
        Some(p) => p,
        None => {
            proof {
                assert forall|m: ReportModel, rest: Seq<char>|
                    s@.skip(pos as int) == spec_enc_report(m) + rest implies false by {
                    lemma_report_decompose(s@, pos as int, m, rest);
                }
            }
            return None;
        },
    };
    let step2 = parse_str(s, p2);
    let (protocol_information, p3) = match step2 {
        Some(p) => p,
        None => {
            proof {
                assert forall|m: ReportModel, rest: Seq<char>|
                    s@.skip(pos as int) == spec_enc_report(m) + rest implies false by {
                    lemma_report_decompose(s@, pos as int, m, rest);
                }
            }
            return None;
        },
    };
    let step3 = parse_u32(s, p3);
    let (id, p4) = match step3 {
        Some(p) => p,
        None => {
            proof {
                assert forall|m: ReportModel, rest: Seq<char>|
                    s@.skip(pos as int) == spec_enc_report(m) + rest implies false by {
                    lemma_report_decompose(s@, pos as int, m, rest);
                }
            }
            return None;
        },
    };
    let step4 = parse_messages(s, p4);
    let (messages, p5) = match step4 {
        Some(p) => p,
        None => {
            proof {
                assert forall|m: ReportModel, rest: Seq<char>|
                    s@.skip(pos as int) == spec_enc_report(m) + rest implies false by {
                    lemma_report_decompose(s@, pos as int, m, rest);
                }
            }
            return None;
        },
    };
    let step5 = parse_opt_u32(s, p5);
    let (dimension, p6) = match step5 {
        Some(p) => p,
        None => {
            proof {
                assert forall|m: ReportModel, rest: Seq<char>|
                    s@.skip(pos as int) == spec_enc_report(m) + rest implies false by {
                    lemma_report_decompose(s@, pos as int, m, rest);
                }
            }
            return None;
        },
    };
    let step6 = parse_u32(s, p6);
    let (instance_number, p7) = match step6 {
        Some(p) => p,
        None => {
            proof {
                assert forall|m: ReportModel, rest: Seq<char>|
                    s@.skip(pos as int) == spec_enc_report(m) + rest implies false by {
                    lemma_report_decompose(s@, pos as int, m, rest);
                }
            }
            return None;
        },
    };
    let step7 = parse_u32(s, p7);
    let (round_number, p8) = match step7 {
        Some(p) => p,
        None => {
            proof {
                assert forall|m: ReportModel, rest: Seq<char>|
                    s@.skip(pos as int) == spec_enc_report(m) + rest implies false by {
                    lemma_report_decompose(s@, pos as int, m, rest);
                }
            }
            return None;
        },
    };
    let result = Report { report_type, protocol_information, id, messages, dimension, instance_number, round_number };
    proof {
        assert forall|m: ReportModel, rest: Seq<char>|
            s@.skip(pos as int) == spec_enc_report(m) + rest implies result@ == m && p8 == pos
            + spec_enc_report(m).len() by {
            lemma_report_decompose(s@, pos as int, m, rest);
            
            assert(result@ =~= m);
        }
    }
    proof {
        lemma_subrange_join(s@, pos as int, p1 as int, p2 as int);
        lemma_subrange_join(s@, pos as int, p2 as int, p3 as int);
        lemma_subrange_join(s@, pos as int, p3 as int, p4 as int);
        lemma_subrange_join(s@, pos as int, p4 as int, p5 as int);
        lemma_subrange_join(s@, pos as int, p5 as int, p6 as int);
        lemma_subrange_join(s@, pos as int, p6 as int, p7 as int);
        lemma_subrange_join(s@, pos as int, p7 as int, p8 as int);
        assert(s@.subrange(pos as int, p8 as int) == spec_enc_report(result@));
    }
    Some((result, p8))
}

/// A run of report encodings, in order.
pub open spec fn spec_enc_reports(qs: Seq<ReportModel>) -> Seq<char>
    decreases qs.len(),
{
    if qs.len() == 0 {
        Seq::empty()
    } else {
        spec_enc_report(qs[0]) + spec_enc_reports(qs.skip(1))
    }
}

/// A report list on the wire: its length, then the reports in order.
pub open spec fn spec_enc_report_list(qs: Seq<ReportModel>) -> Seq<char> {
    spec_enc_u64(qs.len()) + spec_enc_reports(qs)
}

/// Extending a run by one report appends that report's encoding.
proof fn lemma_enc_reports_snoc(qs: Seq<ReportModel>, x: ReportModel)
    ensures
        spec_enc_reports(qs.push(x)) == spec_enc_reports(qs) + spec_enc_report(x),
    decreases qs.len(),
{
    if qs.len() == 0 {
        assert(qs.push(x)[0] == x);
        assert(qs.push(x).skip(1) =~= Seq::<ReportModel>::empty());
        assert(spec_enc_reports(qs.push(x)) == spec_enc_report(x) + spec_enc_reports(
            qs.push(x).skip(1),
        ));
        assert(spec_enc_reports(Seq::<ReportModel>::empty()) == Seq::<char>::empty());
        assert(spec_enc_reports(qs.push(x)) =~= spec_enc_reports(qs) + spec_enc_report(x));
    } else {
        assert(qs.push(x).skip(1) =~= qs.skip(1).push(x));
        lemma_enc_reports_snoc(qs.skip(1), x);
        assert(qs.push(x)[0] == qs[0]);
        assert(spec_enc_reports(qs.push(x)) == spec_enc_report(qs[0]) + spec_enc_reports(
            qs.skip(1).push(x),
        ));
        assert(spec_enc_reports(qs) == spec_enc_report(qs[0]) + spec_enc_reports(qs.skip(1)));
        assert(spec_enc_reports(qs.push(x)) =~= spec_enc_reports(qs) + spec_enc_report(x));
    }
}

/// A run of report encodings is at least as long as the run itself.
proof fn lemma_enc_reports_min_len(qs: Seq<ReportModel>)
    ensures
        spec_enc_reports(qs).len() >= qs.len(),
    decreases qs.len(),
{
    if qs.len() > 0 {
        lemma_enc_reports_min_len(qs.skip(1));
    }
}

/// An input that starts with a report-list encoding: its length fits the
/// machine, its count field reads back, and the run of reports follows.
proof fn lemma_report_list_head(s: Seq<char>, pos: int, qs: Seq<ReportModel>, rest: Seq<char>)
    requires
        0 <= pos <= s.len(),
        s.len() <= usize::MAX,
        s.skip(pos) == spec_enc_report_list(qs) + rest,
    ensures
        qs.len() <= u64::MAX,
        (qs.len() as u64) as nat == qs.len(),
        s.skip(pos) == spec_enc_u64(((qs.len() as u64) as nat)) + (spec_enc_reports(qs) + rest),
        pos + spec_enc_u64(qs.len()).len() <= s.len(),
        s.skip(pos + spec_enc_u64(qs.len()).len()) == spec_enc_reports(qs) + rest,
        spec_enc_reports(qs).len() >= qs.len(),
{
    lemma_enc_reports_min_len(qs);
    assert(s.skip(pos).len() == s.len() - pos);
    assert(spec_enc_report_list(qs).len() >= qs.len());
    assert(qs.len() <= s.len());
    assert(s.skip(pos) =~= spec_enc_u64(qs.len()) + (spec_enc_reports(qs) + rest));
    lemma_skip_concat(s, pos, spec_enc_u64(qs.len()), spec_enc_reports(qs) + rest);
}

/// Append the wire form of the report list `v` to `out`.
fn write_reports(out: &mut String, v: &Vec<Report>)
    ensures
        final(out)@ == old(out)@ + spec_enc_report_list(v@.map_values(|q: Report| q@)),
{
    let ghost qs = v@.map_values(|q: Report| q@);
    write_u64(out, v.len() as u64);
    let mut i: usize = 0;
    while i < v.len()
        invariant
            0 <= i <= v.len(),
            qs == v@.map_values(|q: Report| q@),
            out@ == old(out)@ + spec_enc_u64(qs.len()) + spec_enc_reports(qs.take(i as int)),
        decreases v.len() - i,
    {
        write_report(out, &v[i]);
        proof {
            assert(qs.take(i as int).push(qs[i as int]) =~= qs.take(i as int + 1));
            lemma_enc_reports_snoc(qs.take(i as int), qs[i as int]);
            assert(out@ =~= old(out)@ + spec_enc_u64(qs.len()) + spec_enc_reports(
                qs.take(i as int + 1),
            ));
        }
        i += 1;
    }
    proof {
        assert(qs.take(qs.len() as int) =~= qs);
        assert(final(out)@ =~= old(out)@ + spec_enc_report_list(qs));
    }
}

/// Read a report list starting at `pos`: the exact inverse of
/// `write_reports`.
#[verifier::rlimit(100)]
fn parse_reports(s: &str, pos: usize) -> (r: Option<(Vec<Report>, usize)>)
    requires
        pos <= s@.len(),
    ensures
        forall|qs: Seq<ReportModel>, rest: Seq<char>|
            s@.skip(pos as int) == spec_enc_report_list(qs) + rest ==> (r matches Some(p)
                && p.0@.map_values(|q: Report| q@) == qs && p.1 == pos + spec_enc_report_list(
                qs,
            ).len()),
        r matches Some(p) ==> pos <= p.1 <= s@.len() && s@.subrange(pos as int, p.1 as int)
            == spec_enc_report_list(p.0@.map_values(|q: Report| q@)),
{
    let len = s.unicode_len();
    let counted = parse_u64(s, pos);
    let (count, p1) = match counted {
        Some(p) => p,
        None => {
            proof {
                assert forall|qs: Seq<ReportModel>, rest: Seq<char>|
                    s@.skip(pos as int) == spec_enc_report_list(qs) + rest implies false by {
                    lemma_report_list_head(s@, pos as int, qs, rest);
                }
            }
            return None;
        },
    };
    if count > (len - p1) as u64 {
        proof {
            assert forall|qs: Seq<ReportModel>, rest: Seq<char>|
                s@.skip(pos as int) == spec_enc_report_list(qs) + rest implies false by {
                lemma_report_list_head(s@, pos as int, qs, rest);
                let n = qs.len() as u64;
                assert(count == n && p1 == pos + spec_dec_digits(n as nat).len() + 1);
                assert(s@.skip(p1 as int).len() == s@.len() - p1);
                assert(s@.skip(p1 as int).len() == spec_enc_reports(qs).len() + rest.len());
            }
        }
        return None;
    }
    let mut v: Vec<Report> = Vec::new();
    let mut cur: usize = p1;
    let mut i: u64 = 0;
    proof {
        assert(v@.map_values(|q: Report| q@) =~= Seq::<ReportModel>::empty());
        assert(s@.subrange(p1 as int, p1 as int) =~= Seq::<char>::empty());
        assert(spec_enc_reports(v@.map_values(|q: Report| q@)) == Seq::<char>::empty());
    }
    proof {
        assert forall|qs: Seq<ReportModel>, rest: Seq<char>|
            s@.skip(pos as int) == spec_enc_report_list(qs) + rest implies {
            &&& count == qs.len()
            &&& v@.map_values(|q: Report| q@) == qs.take(0)
            &&& s@.skip(cur as int) == spec_enc_reports(qs.skip(0)) + rest
        } by {
            lemma_report_list_head(s@, pos as int, qs, rest);
            let n = qs.len() as u64;
            assert(count == n && p1 == pos + spec_dec_digits(n as nat).len() + 1);
            assert(v@.map_values(|q: Report| q@) =~= qs.take(0));
            assert(qs.skip(0) =~= qs);
        }
    }
    while i < count
        invariant
            0 <= i <= count,
            pos <= p1 <= cur <= s@.len(),
            v@.len() == i,
            s@.subrange(pos as int, p1 as int) == spec_enc_u64(count as nat),
            s@.subrange(p1 as int, cur as int) == spec_enc_reports(
                v@.map_values(|q: Report| q@),
            ),
            forall|qs: Seq<ReportModel>, rest: Seq<char>|
                s@.skip(pos as int) == spec_enc_report_list(qs) + rest ==> {
                    &&& count == qs.len()
                    &&& v@.map_values(|q: Report| q@) == qs.take(i as int)
                    &&& s@.skip(cur as int) == spec_enc_reports(qs.skip(i as int)) + rest
                },
        decreases count - i,
    {
        let step = parse_report(s, cur);
        match step {
            Some((q, p)) => {
                let ghost pre_v = v@.map_values(|x: Report| x@);
                let ghost pre_cur = cur;
                v.push(q);
                cur = p;
                proof {
                    assert(v@.map_values(|x: Report| x@) =~= pre_v.push(q@));
                    lemma_enc_reports_snoc(pre_v, q@);
                    lemma_subrange_join(s@, p1 as int, pre_cur as int, p as int);
                    assert(s@.subrange(p1 as int, p as int) == spec_enc_reports(
                        v@.map_values(|x: Report| x@),
                    ));
                }
                proof {
                    assert forall|qs: Seq<ReportModel>, rest: Seq<char>|
                        s@.skip(pos as int) == spec_enc_report_list(qs) + rest implies {
                        &&& count == qs.len()
                        &&& v@.map_values(|x: Report| x@) == qs.take(i as int + 1)
                        &&& s@.skip(cur as int) == spec_enc_reports(qs.skip(i as int + 1)) + rest
                    } by {
                        assert(pre_v == qs.take(i as int));
                        assert(s@.skip(pre_cur as int) == spec_enc_reports(qs.skip(i as int))
                            + rest);
                        assert(qs.skip(i as int)[0] == qs[i as int]);
                        assert(qs.skip(i as int).skip(1) =~= qs.skip(i as int + 1));
                        assert(s@.skip(pre_cur as int) =~= spec_enc_report(qs[i as int]) + (
                        spec_enc_reports(qs.skip(i as int + 1)) + rest));
                        assert(q@ == qs[i as int]);
                        assert(p == pre_cur + spec_enc_report(qs[i as int]).len());
                        lemma_skip_concat(
                            s@,
                            pre_cur as int,
                            spec_enc_report(qs[i as int]),
                            spec_enc_reports(qs.skip(i as int + 1)) + rest,
                        );
                        assert(v@.map_values(|x: Report| x@) =~= qs.take(i as int + 1));
                    }
                }
                i += 1;
            },
            None => {
                proof {
                    assert forall|qs: Seq<ReportModel>, rest: Seq<char>|
                        s@.skip(pos as int) == spec_enc_report_list(qs) + rest implies false by {
                        assert(count == qs.len());
                        assert(s@.skip(cur as int) == spec_enc_reports(qs.skip(i as int)) + rest);
                        assert(qs.skip(i as int)[0] == qs[i as int]);
                        assert(qs.skip(i as int).skip(1) =~= qs.skip(i as int + 1));
                        assert(s@.skip(cur as int) =~= spec_enc_report(qs[i as int]) + (
                        spec_enc_reports(qs.skip(i as int + 1)) + rest));
                    }
                }
                return None;
            },
        }
    }
    proof {
        assert forall|qs: Seq<ReportModel>, rest: Seq<char>|
            s@.skip(pos as int) == spec_enc_report_list(qs) + rest implies {
            &&& v@.map_values(|x: Report| x@) == qs
            &&& cur == pos + spec_enc_report_list(qs).len()
        } by {
            assert(count == qs.len());
            assert(v@.map_values(|x: Report| x@) == qs.take(i as int));
            assert(qs.take(i as int) =~= qs);
            assert(s@.skip(cur as int) == spec_enc_reports(qs.skip(i as int)) + rest);
            assert(qs.skip(i as int) =~= Seq::<ReportModel>::empty());
            assert(s@.skip(cur as int).len() == rest.len());
            assert(s@.skip(pos as int).len() == spec_enc_report_list(qs).len() + rest.len());
        }
    }
    proof {
        assert((count as nat) == v@.map_values(|q: Report| q@).len());
        lemma_subrange_join(s@, pos as int, p1 as int, cur as int);
        assert(s@.subrange(pos as int, cur as int) == spec_enc_report_list(
            v@.map_values(|q: Report| q@),
        ));
    }
    Some((v, cur))
}

/// A aggregated report on the wire: its tag, then every field in order.
pub open spec fn spec_enc_aggregated_report(m: AggregatedReportModel) -> Seq<char> {
    seq!['A'] + spec_enc_report_type(m.report_type) + spec_enc_str(m.protocol_information) + spec_enc_u64(m.id as nat) + spec_enc_report_list(m.reports) + spec_enc_u64(m.instance_number as nat) + spec_enc_u64(m.round_number as nat)
}

/// Append the wire form of `m` to `out`.
pub fn write_aggregated_report(out: &mut String, m: &AggregatedReport)
    ensures
        final(out)@ == old(out)@ + spec_enc_aggregated_report(m@),
{
    out.append("A");
    proof {
        reveal_strlit("A");
    }
    write_report_type(out, m.report_type);
    write_str(out, m.protocol_information.as_str());
    write_u64(out, m.id as u64);
    write_reports(out, &m.reports);
    write_u64(out, m.instance_number as u64);
    write_u64(out, m.round_number as u64);
    proof {
        assert(final(out)@ =~= old(out)@ + spec_enc_aggregated_report(m@));
    }
}

/// An input that starts with a aggregated report encoding, cut apart one
/// field at a time.
#[verifier::rlimit(100)]
proof fn lemma_aggregated_report_decompose(s: Seq<char>, pos: int, m: AggregatedReportModel, rest: Seq<char>)
    requires
        0 <= pos <= s.len(),
        s.len() <= usize::MAX,
        s.skip(pos) == spec_enc_aggregated_report(m) + rest,
    ensures
        ({
            let e1 = spec_enc_report_type(m.report_type);
            let e2 = spec_enc_str(m.protocol_information);
            let e3 = spec_enc_u64(m.id as nat);
            let e4 = spec_enc_report_list(m.reports);
            let e5 = spec_enc_u64(m.instance_number as nat);
            let e6 = spec_enc_u64(m.round_number as nat);
            let q1 = pos + 1;
            let q2 = q1 + e1.len();
            let q3 = q2 + e2.len();
            let q4 = q3 + e3.len();
            let q5 = q4 + e4.len();
            let q6 = q5 + e5.len();
            let q7 = q6 + e6.len();
            &&& s.skip(pos) == seq!['A'] + (e1 + (e2 + (e3 + (e4 + (e5 + (e6 + rest))))))
            &&& s.skip(q1) == e1 + (e2 + (e3 + (e4 + (e5 + (e6 + rest)))))
            &&& s.skip(q2) == e2 + (e3 + (e4 + (e5 + (e6 + rest))))
            &&& s.skip(q3) == e3 + (e4 + (e5 + (e6 + rest)))
            &&& s.skip(q4) == e4 + (e5 + (e6 + rest))
            &&& s.skip(q5) == e5 + (e6 + rest)
            &&& s.skip(q6) == e6 + rest
            &&& q7 == pos + spec_enc_aggregated_report(m).len()
            &&& q7 <= s.len()
        }),
{
    let e1 = spec_enc_report_type(m.report_type);
    let e2 = spec_enc_str(m.protocol_information);
    let e3 = spec_enc_u64(m.id as nat);
    let e4 = spec_enc_report_list(m.reports);
    let e5 = spec_enc_u64(m.instance_number as nat);
    let e6 = spec_enc_u64(m.round_number as nat);
    assert(s.skip(pos) =~= seq!['A'] + (e1 + (e2 + (e3 + (e4 + (e5 + (e6 + rest)))))));
    lemma_skip_concat(s, pos, seq!['A'], (e1 + (e2 + (e3 + (e4 + (e5 + (e6 + rest)))))));
    lemma_skip_concat(s, pos + 1, e1, (e2 + (e3 + (e4 + (e5 + (e6 + rest))))));
    lemma_skip_concat(s, pos + 1 + e1.len(), e2, (e3 + (e4 + (e5 + (e6 + rest)))));
    lemma_skip_concat(s, pos + 1 + e1.len() + e2.len(), e3, (e4 + (e5 + (e6 + rest))));
    lemma_skip_concat(s, pos + 1 + e1.len() + e2.len() + e3.len(), e4, (e5 + (e6 + rest)));
    lemma_skip_concat(s, pos + 1 + e1.len() + e2.len() + e3.len() + e4.len(), e5, (e6 + rest));
    lemma_skip_concat(s, pos + 1 + e1.len() + e2.len() + e3.len() + e4.len() + e5.len(), e6, rest);
}

/// Read a aggregated report starting at `pos`: the exact inverse of
/// `write_aggregated_report`.
#[verifier::rlimit(100)]
pub fn parse_aggregated_report(s: &str, pos: usize) -> (r: Option<(AggregatedReport, usize)>)
    requires
        pos <= s@.len(),
    ensures
        forall|m: AggregatedReportModel, rest: Seq<char>|
            s@.skip(pos as int) == spec_enc_aggregated_report(m) + rest ==> (r matches Some(p) && p.0@ == m
                && p.1 == pos + spec_enc_aggregated_report(m).len()),
        r matches Some(p) ==> pos < p.1 <= s@.len() && s@.subrange(pos as int, p.1 as int)
            == spec_enc_aggregated_report(p.0@),
{
    let _ul: usize = s.unicode_len();
    let step0 = parse_exact(s, pos, 'A');
    let p1 = match step0 {
        Some(p) => p,
        None => {
            proof {
                assert forall|m: AggregatedReportModel, rest: Seq<char>|
                    s@.skip(pos as int) == spec_enc_aggregated_report(m) + rest implies false by {
                    lemma_aggregated_report_decompose(s@, pos as int, m, rest);
                }
            }
            return None;
        },
    };
    let step1 = parse_report_type(s, p1);
    let (report_type, p2) = match step1 {
        Some(p) => p,
        None => {
            proof {
                assert forall|m: AggregatedReportModel, rest: Seq<char>|
                    s@.skip(pos as int) == spec_enc_aggregated_report(m) + rest implies false by {
                    lemma_aggregated_report_decompose(s@, pos as int, m, rest);
                }
            }
            return None;
        },
    };
    let step2 = parse_str(s, p2);
    let (protocol_information, p3) = match step2 {
        Some(p) => p,
        None => {
            proof {
                assert forall|m: AggregatedReportModel, rest: Seq<char>|
                    s@.skip(pos as int) == spec_enc_aggregated_report(m) + rest implies false by {
                    lemma_aggregated_report_decompose(s@, pos as int, m, rest);
                }
            }
            return None;
        },
    };
    let step3 = parse_u32(s, p3);
    let (id, p4) = match step3 {
        Some(p) => p,
        None => {
            proof {
                assert forall|m: AggregatedReportModel, rest: Seq<char>|
                    s@.skip(pos as int) == spec_enc_aggregated_report(m) + rest implies false by {
                    lemma_aggregated_report_decompose(s@, pos as int, m, rest);
                }
            }
            return None;
        },
    };
    let step4 = parse_reports(s, p4);
    let (reports, p5) = match step4 {
        Some(p) => p,
        None => {
            proof {
                assert forall|m: AggregatedReportModel, rest: Seq<char>|
                    s@.skip(pos as int) == spec_enc_aggregated_report(m) + rest implies false by {
                    lemma_aggregated_report_decompose(s@, pos as int, m, rest);
                }
            }
            return None;
        },
    };
    let step5 = parse_u32(s, p5);
    let (instance_number, p6) = match step5 {
        Some(p) => p,
        None => {
            proof {
                assert forall|m: AggregatedReportModel, rest: Seq<char>|
                    s@.skip(pos as int) == spec_enc_aggregated_report(m) + rest implies false by {
                    lemma_aggregated_report_decompose(s@, pos as int, m, rest);
                }
            }
            return None;
        },
    };
    let step6 = parse_u32(s, p6);
    let (round_number, p7) = match step6 {
        Some(p) => p,
        None => {
            proof {
                assert forall|m: AggregatedReportModel, rest: Seq<char>|
                    s@.skip(pos as int) == spec_enc_aggregated_report(m) + rest implies false by {
                    lemma_aggregated_report_decompose(s@, pos as int, m, rest);
                }
            }
            return None;
        },
    };
    let result = AggregatedReport { report_type, protocol_information, id, reports, instance_number, round_number };
    proof {
        assert forall|m: AggregatedReportModel, rest: Seq<char>|
            s@.skip(pos as int) == spec_enc_aggregated_report(m) + rest implies result@ == m && p7 == pos
            + spec_enc_aggregated_report(m).len() by {
            lemma_aggregated_report_decompose(s@, pos as int, m, rest);
            
            assert(result@ =~= m);
        }
    }
    proof {
        lemma_subrange_join(s@, pos as int, p1 as int, p2 as int);
        lemma_subrange_join(s@, pos as int, p2 as int, p3 as int);
        lemma_subrange_join(s@, pos as int, p3 as int, p4 as int);
        lemma_subrange_join(s@, pos as int, p4 as int, p5 as int);
        lemma_subrange_join(s@, pos as int, p5 as int, p6 as int);
        lemma_subrange_join(s@, pos as int, p6 as int, p7 as int);
        assert(s@.subrange(pos as int, p7 as int) == spec_enc_aggregated_report(result@));
    }
    Some((result, p7))
}

/// A barycentric report on the wire: its tag, then every field in order.
pub open spec fn spec_enc_barycentric_report(m: BarycentricReportModel) -> Seq<char> {
    seq!['B'] + spec_enc_str(m.protocol_information) + spec_enc_u64(m.id as nat) + spec_enc_message_list(m.messages) + spec_enc_u64(m.instance_number as nat) + spec_enc_u64(m.round_number as nat)
}

/// Append the wire form of `m` to `out`.
pub fn write_barycentric_report(out: &mut String, m: &BarycentricReport)
    ensures
        final(out)@ == old(out)@ + spec_enc_barycentric_report(m@),
{
    out.append("B");
    proof {
        reveal_strlit("B");
    }
    write_str(out, m.protocol_information.as_str());
    write_u64(out, m.id as u64);
    write_messages(out, &m.messages);
    write_u64(out, m.instance_number as u64);
    write_u64(out, m.round_number as u64);
    proof {
        assert(final(out)@ =~= old(out)@ + spec_enc_barycentric_report(m@));
    }
}

/// An input that starts with a barycentric report encoding, cut apart one
/// field at a time.
#[verifier::rlimit(100)]
proof fn lemma_barycentric_report_decompose(s: Seq<char>, pos: int, m: BarycentricReportModel, rest: Seq<char>)
    requires
        0 <= pos <= s.len(),
        s.len() <= usize::MAX,
        s.skip(pos) == spec_enc_barycentric_report(m) + rest,
    ensures
        ({
            let e1 = spec_enc_str(m.protocol_information);
            let e2 = spec_enc_u64(m.id as nat);
            let e3 = spec_enc_message_list(m.messages);
            let e4 = spec_enc_u64(m.instance_number as nat);
            let e5 = spec_enc_u64(m.round_number as nat);
            let q1 = pos + 1;
            let q2 = q1 + e1.len();
            let q3 = q2 + e2.len();
            let q4 = q3 + e3.len();
            let q5 = q4 + e4.len();
            let q6 = q5 + e5.len();
            &&& s.skip(pos) == seq!['B'] + (e1 + (e2 + (e3 + (e4 + (e5 + rest)))))
            &&& s.skip(q1) == e1 + (e2 + (e3 + (e4 + (e5 + rest))))
            &&& s.skip(q2) == e2 + (e3 + (e4 + (e5 + rest)))
            &&& s.skip(q3) == e3 + (e4 + (e5 + rest))
            &&& s.skip(q4) == e4 + (e5 + rest)
            &&& s.skip(q5) == e5 + rest
            &&& q6 == pos + spec_enc_barycentric_report(m).len()
            &&& q6 <= s.len()
        }),
{
    let e1 = spec_enc_str(m.protocol_information);
    let e2 = spec_enc_u64(m.id as nat);
    let e3 = spec_enc_message_list(m.messages);
    let e4 = spec_enc_u64(m.instance_number as nat);
    let e5 = spec_enc_u64(m.round_number as nat);
    assert(s.skip(pos) =~= seq!['B'] + (e1 + (e2 + (e3 + (e4 + (e5 + rest))))));
    lemma_skip_concat(s, pos, seq!['B'], (e1 + (e2 + (e3 + (e4 + (e5 + rest))))));
    lemma_skip_concat(s, pos + 1, e1, (e2 + (e3 + (e4 + (e5 + rest)))));
    lemma_skip_concat(s, pos + 1 + e1.len(), e2, (e3 + (e4 + (e5 + rest))));
    lemma_skip_concat(s, pos + 1 + e1.len() + e2.len(), e3, (e4 + (e5 + rest)));
    lemma_skip_concat(s, pos + 1 + e1.len() + e2.len() + e3.len(), e4, (e5 + rest));
    lemma_skip_concat(s, pos + 1 + e1.len() + e2.len() + e3.len() + e4.len(), e5, rest);
}

/// Read a barycentric report starting at `pos`: the exact inverse of
/// `write_barycentric_report`.
#[verifier::rlimit(100)]
pub fn parse_barycentric_report(s: &str, pos: usize) -> (r: Option<(BarycentricReport, usize)>)
    requires
        pos <= s@.len(),
    ensures
        forall|m: BarycentricReportModel, rest: Seq<char>|
            s@.skip(pos as int) == spec_enc_barycentric_report(m) + rest ==> (r matches Some(p) && p.0@ == m
                && p.1 == pos + spec_enc_barycentric_report(m).len()),
        r matches Some(p) ==> pos < p.1 <= s@.len() && s@.subrange(pos as int, p.1 as int)
            == spec_enc_barycentric_report(p.0@),
{
    let _ul: usize = s.unicode_len();
    let step0 = parse_exact(s, pos, 'B');
    let p1 = match step0 {
        Some(p) => p,
        None => {
            proof {
                assert forall|m: BarycentricReportModel, rest: Seq<char>|
                    s@.skip(pos as int) == spec_enc_barycentric_report(m) + rest implies false by {
                    lemma_barycentric_report_decompose(s@, pos as int, m, rest);
                }
            }
            return None;
        },
    };
    let step1 = parse_str(s, p1);
    let (protocol_information, p2) = match step1 {
        Some(p) => p,
        None => {
            proof {
                assert forall|m: BarycentricReportModel, rest: Seq<char>|
                    s@.skip(pos as int) == spec_enc_barycentric_report(m) + rest implies false by {
                    lemma_barycentric_report_decompose(s@, pos as int, m, rest);
                }
            }
            return None;
        },
    };
    let step2 = parse_u32(s, p2);
    let (id, p3) = match step2 {
        Some(p) => p,
        None => {
            proof {
                assert forall|m: BarycentricReportModel, rest: Seq<char>|
                    s@.skip(pos as int) == spec_enc_barycentric_report(m) + rest implies false by {
                    lemma_barycentric_report_decompose(s@, pos as int, m, rest);
                }
            }
            return None;
        },
    };
    let step3 = parse_messages(s, p3);
    let (messages, p4) = match step3 {
        Some(p) => p,
        None => {
            proof {
                assert forall|m: BarycentricReportModel, rest: Seq<char>|
                    s@.skip(pos as int) == spec_enc_barycentric_report(m) + rest implies false by {
                    lemma_barycentric_report_decompose(s@, pos as int, m, rest);
                }
            }
            return None;
        },
    };
    let step4 = parse_u32(s, p4);
    let (instance_number, p5) = match step4 {
        Some(p) => p,
        None => {
            proof {
                assert forall|m: BarycentricReportModel, rest: Seq<char>|
                    s@.skip(pos as int) == spec_enc_barycentric_report(m) + rest implies false by {
                    lemma_barycentric_report_decompose(s@, pos as int, m, rest);
                }
            }
            return None;
        },
    };
    let step5 = parse_u32(s, p5);
    let (round_number, p6) = match step5 {
        Some(p) => p,
        None => {
            proof {
                assert forall|m: BarycentricReportModel, rest: Seq<char>|
                    s@.skip(pos as int) == spec_enc_barycentric_report(m) + rest implies false by {
                    lemma_barycentric_report_decompose(s@, pos as int, m, rest);
                }
            }
            return None;
        },
    };
    let result = BarycentricReport { protocol_information, id, messages, instance_number, round_number };
    proof {
        assert forall|m: BarycentricReportModel, rest: Seq<char>|
            s@.skip(pos as int) == spec_enc_barycentric_report(m) + rest implies result@ == m && p6 == pos
            + spec_enc_barycentric_report(m).len() by {
            lemma_barycentric_report_decompose(s@, pos as int, m, rest);
            
            assert(result@ =~= m);
        }
    }
    proof {
        lemma_subrange_join(s@, pos as int, p1 as int, p2 as int);
        lemma_subrange_join(s@, pos as int, p2 as int, p3 as int);
        lemma_subrange_join(s@, pos as int, p3 as int, p4 as int);
        lemma_subrange_join(s@, pos as int, p4 as int, p5 as int);
        lemma_subrange_join(s@, pos as int, p5 as int, p6 as int);
        assert(s@.subrange(pos as int, p6 as int) == spec_enc_barycentric_report(result@));
    }
    Some((result, p6))
}

/// A signal phase on the wire: one tag character.
pub open spec fn spec_enc_signal_type(t: SignalType) -> Seq<char> {
    match t {
        SignalType::Input => seq!['i'],
        SignalType::Echo => seq!['e'],
        SignalType::Vote => seq!['v'],
    }
}

/// Append the wire form of `t` to `out`.
fn write_signal_type(out: &mut String, t: SignalType)
    ensures
        final(out)@ == old(out)@ + spec_enc_signal_type(t),
{
    match t {
        SignalType::Input => {
            out.append("i");
            proof {
                reveal_strlit("i");
                assert(final(out)@ =~= old(out)@ + spec_enc_signal_type(t));
            }
        },
        SignalType::Echo => {
            out.append("e");
            proof {
                reveal_strlit("e");
                assert(final(out)@ =~= old(out)@ + spec_enc_signal_type(t));
            }
        },
        SignalType::Vote => {
            out.append("v");
            proof {
                reveal_strlit("v");
                assert(final(out)@ =~= old(out)@ + spec_enc_signal_type(t));
            }
        },
    }
}

/// Read a signal phase.
fn parse_signal_type(s: &str, pos: usize) -> (r: Option<(SignalType, usize)>)
    requires
        pos <= s@.len(),
    ensures
        forall|t: SignalType, rest: Seq<char>|
            s@.skip(pos as int) == spec_enc_signal_type(t) + rest ==> (r matches Some(p) && p.0
                == t && p.1 == pos + 1),
        r matches Some(p) ==> pos < p.1 <= s@.len() && s@.subrange(pos as int, p.1 as int)
            == spec_enc_signal_type(p.0),
{
    let len = s.unicode_len();
    if pos >= len {
        proof {
            assert forall|t: SignalType, rest: Seq<char>|
                s@.skip(pos as int) == spec_enc_signal_type(t) + rest implies false by {
                assert(s@.skip(pos as int).len() == 0);
                assert(spec_enc_signal_type(t).len() == 1);
            }
        }
        return None;
    }
    let c = s.get_char(pos);
    proof {
        assert(s@.skip(pos as int)[0] == s@[pos as int]);
    }
    if c == 'i' {
        proof {
            assert(s@.subrange(pos as int, pos as int + 1) =~= seq!['i']);
        }
        return Some((SignalType::Input, pos + 1));
    }
    if c == 'e' {
        proof {
            assert(s@.subrange(pos as int, pos as int + 1) =~= seq!['e']);
        }
        return Some((SignalType::Echo, pos + 1));
    }
    if c == 'v' {
        proof {
            assert(s@.subrange(pos as int, pos as int + 1) =~= seq!['v']);
        }
        return Some((SignalType::Vote, pos + 1));
    }
    proof {
        assert forall|t: SignalType, rest: Seq<char>|
            s@.skip(pos as int) == spec_enc_signal_type(t) + rest implies false by {
            assert((spec_enc_signal_type(t) + rest)[0] == spec_enc_signal_type(t)[0]);
        }
    }
    None
}

/// A content on the wire: the encoding of the entity it carries; the
/// entity's tag tells the kinds apart.
pub open spec fn spec_enc_object(c: ObjectContentModel) -> Seq<char> {
    match c {
        ObjectContentModel::Message(m) => spec_enc_message(m),
        ObjectContentModel::Report(q) => spec_enc_report(q),
        ObjectContentModel::AggregatedReport(q) => spec_enc_aggregated_report(q),
        ObjectContentModel::BarycentricReport(q) => spec_enc_barycentric_report(q),
    }
}

/// Append the wire form of `c` to `out`.
pub fn write_object(out: &mut String, c: &ObjectContent)
    ensures
        final(out)@ == old(out)@ + spec_enc_object(c@),
{
    match c {
        ObjectContent::Message(m) => write_message(out, m),
        ObjectContent::Report(q) => write_report(out, q),
        ObjectContent::AggregatedReport(q) => write_aggregated_report(out, q),
        ObjectContent::BarycentricReport(q) => write_barycentric_report(out, q),
    }
}

/// Read the content of a frame whose tag announces a message.
#[verifier::rlimit(100)]
fn parse_object_message(s: &str, pos: usize) -> (r: Option<(ObjectContent, usize)>)
    requires
        pos < s@.len(),
        s@[pos as int] == 'M',
    ensures
        forall|c: ObjectContentModel, rest: Seq<char>|
            s@.skip(pos as int) == spec_enc_object(c) + rest ==> (r matches Some(p) && p.0@ == c
                && p.1 == pos + spec_enc_object(c).len()),
        r matches Some(p) ==> pos < p.1 <= s@.len() && s@.subrange(pos as int, p.1 as int)
            == spec_enc_object(p.0@),
{
    proof {
        assert(s@.skip(pos as int)[0] == s@[pos as int]);
    }
    match parse_message(s, pos) {
        Some((x, p)) => {
            proof {
                assert forall|c: ObjectContentModel, rest: Seq<char>|
                    s@.skip(pos as int) == spec_enc_object(c) + rest implies c
                    == ObjectContentModel::Message(x@) && p == pos + spec_enc_object(
                    c,
                ).len() by {
                    assert((spec_enc_object(c) + rest)[0] == spec_enc_object(c)[0]);
                    assert(c is Message);
                }
            }
            Some((ObjectContent::Message(x), p))
        },
        None => {
            proof {
                assert forall|c: ObjectContentModel, rest: Seq<char>|
                    s@.skip(pos as int) == spec_enc_object(c) + rest implies false by {
                    assert((spec_enc_object(c) + rest)[0] == spec_enc_object(c)[0]);
                    assert(c is Message);
                }
            }
            None
        },
    }
}

/// Read the content of a frame whose tag announces a report.
#[verifier::rlimit(100)]
fn parse_object_report(s: &str, pos: usize) -> (r: Option<(ObjectContent, usize)>)
    requires
        pos < s@.len(),
        s@[pos as int] == 'R',
    ensures
        forall|c: ObjectContentModel, rest: Seq<char>|
            s@.skip(pos as int) == spec_enc_object(c) + rest ==> (r matches Some(p) && p.0@ == c
                && p.1 == pos + spec_enc_object(c).len()),
        r matches Some(p) ==> pos < p.1 <= s@.len() && s@.subrange(pos as int, p.1 as int)
            == spec_enc_object(p.0@),
{
    proof {
        assert(s@.skip(pos as int)[0] == s@[pos as int]);
    }
    match parse_report(s, pos) {
        Some((x, p)) => {
            proof {
                assert forall|c: ObjectContentModel, rest: Seq<char>|
                    s@.skip(pos as int) == spec_enc_object(c) + rest implies c
                    == ObjectContentModel::Report(x@) && p == pos + spec_enc_object(
                    c,
                ).len() by {
                    assert((spec_enc_object(c) + rest)[0] == spec_enc_object(c)[0]);
                    assert(c is Report);
                }
            }
            Some((ObjectContent::Report(x), p))
        },
        None => {
            proof {
                assert forall|c: ObjectContentModel, rest: Seq<char>|
                    s@.skip(pos as int) == spec_enc_object(c) + rest implies false by {
                    assert((spec_enc_object(c) + rest)[0] == spec_enc_object(c)[0]);
                    assert(c is Report);
                }
            }
            None
        },
    }
}

/// Read the content of a frame whose tag announces a aggregated report.
#[verifier::rlimit(100)]
fn parse_object_aggregated_report(s: &str, pos: usize) -> (r: Option<(ObjectContent, usize)>)
    requires
        pos < s@.len(),
        s@[pos as int] == 'A',
    ensures
        forall|c: ObjectContentModel, rest: Seq<char>|
            s@.skip(pos as int) == spec_enc_object(c) + rest ==> (r matches Some(p) && p.0@ == c
                && p.1 == pos + spec_enc_object(c).len()),
        r matches Some(p) ==> pos < p.1 <= s@.len() && s@.subrange(pos as int, p.1 as int)
            == spec_enc_object(p.0@),
{
    proof {
        assert(s@.skip(pos as int)[0] == s@[pos as int]);
    }
    match parse_aggregated_report(s, pos) {
        Some((x, p)) => {
            proof {
                assert forall|c: ObjectContentModel, rest: Seq<char>|
                    s@.skip(pos as int) == spec_enc_object(c) + rest implies c
                    == ObjectContentModel::AggregatedReport(x@) && p == pos + spec_enc_object(
                    c,
                ).len() by {
                    assert((spec_enc_object(c) + rest)[0] == spec_enc_object(c)[0]);
                    assert(c is AggregatedReport);
                }
            }
            Some((ObjectContent::AggregatedReport(x), p))
        },
        None => {
            proof {
                assert forall|c: ObjectContentModel, rest: Seq<char>|
                    s@.skip(pos as int) == spec_enc_object(c) + rest implies false by {
                    assert((spec_enc_object(c) + rest)[0] == spec_enc_object(c)[0]);
                    assert(c is AggregatedReport);
                }
            }
            None
        },
    }
}

/// Read the content of a frame whose tag announces a barycentric report.
#[verifier::rlimit(100)]
fn parse_object_barycentric_report(s: &str, pos: usize) -> (r: Option<(ObjectContent, usize)>)
    requires
        pos < s@.len(),
        s@[pos as int] == 'B',
    ensures
        forall|c: ObjectContentModel, rest: Seq<char>|
            s@.skip(pos as int) == spec_enc_object(c) + rest ==> (r matches Some(p) && p.0@ == c
                && p.1 == pos + spec_enc_object(c).len()),
        r matches Some(p) ==> pos < p.1 <= s@.len() && s@.subrange(pos as int, p.1 as int)
            == spec_enc_object(p.0@),
{
    proof {
        assert(s@.skip(pos as int)[0] == s@[pos as int]);
    }
    match parse_barycentric_report(s, pos) {
        Some((x, p)) => {
            proof {
                assert forall|c: ObjectContentModel, rest: Seq<char>|
                    s@.skip(pos as int) == spec_enc_object(c) + rest implies c
                    == ObjectContentModel::BarycentricReport(x@) && p == pos + spec_enc_object(
                    c,
                ).len() by {
                    assert((spec_enc_object(c) + rest)[0] == spec_enc_object(c)[0]);
                    assert(c is BarycentricReport);
                }
            }
            Some((ObjectContent::BarycentricReport(x), p))
        },
        None => {
            proof {
                assert forall|c: ObjectContentModel, rest: Seq<char>|
                    s@.skip(pos as int) == spec_enc_object(c) + rest implies false by {
                    assert((spec_enc_object(c) + rest)[0] == spec_enc_object(c)[0]);
                    assert(c is BarycentricReport);
                }
            }
            None
        },
    }
}

/// Read a content starting at `pos`: the entity the tag announces.
pub fn parse_object(s: &str, pos: usize) -> (r: Option<(ObjectContent, usize)>)
    requires
        pos <= s@.len(),
    ensures
        forall|c: ObjectContentModel, rest: Seq<char>|
            s@.skip(pos as int) == spec_enc_object(c) + rest ==> (r matches Some(p) && p.0@ == c
                && p.1 == pos + spec_enc_object(c).len()),
        r matches Some(p) ==> pos < p.1 <= s@.len() && s@.subrange(pos as int, p.1 as int)
            == spec_enc_object(p.0@),
{
    let len = s.unicode_len();
    if pos >= len {
        proof {
            assert forall|c: ObjectContentModel, rest: Seq<char>|
                s@.skip(pos as int) == spec_enc_object(c) + rest implies false by {
                assert(s@.skip(pos as int).len() == 0);
                assert(spec_enc_object(c).len() >= 1);
            }
        }
        return None;
    }
    let t = s.get_char(pos);
    if t == 'M' {
        parse_object_message(s, pos)
    } else if t == 'R' {
        parse_object_report(s, pos)
    } else if t == 'A' {
        parse_object_aggregated_report(s, pos)
    } else if t == 'B' {
        parse_object_barycentric_report(s, pos)
    } else {
        proof {
            assert(s@.skip(pos as int)[0] == s@[pos as int]);
            assert forall|c: ObjectContentModel, rest: Seq<char>|
                s@.skip(pos as int) == spec_enc_object(c) + rest implies false by {
                assert((spec_enc_object(c) + rest)[0] == spec_enc_object(c)[0]);
            }
        }
        None
    }
}

/// A signal on the wire: its tag, then every field in order.
pub open spec fn spec_enc_signal(m: SignalModel) -> Seq<char> {
    seq!['S'] + spec_enc_signal_type(m.signal) + spec_enc_object(m.content) + spec_enc_u64(m.instance_number as nat) + spec_enc_u64(m.round_number as nat)
}

/// Append the wire form of `m` to `out`.
pub fn write_signal(out: &mut String, m: &Signal)
    ensures
        final(out)@ == old(out)@ + spec_enc_signal(m@),
{
    out.append("S");
    proof {
        reveal_strlit("S");
    }
    write_signal_type(out, m.signal);
    write_object(out, &m.content);
    write_u64(out, m.instance_number as u64);
    write_u64(out, m.round_number as u64);
    proof {
        assert(final(out)@ =~= old(out)@ + spec_enc_signal(m@));
    }
}

/// An input that starts with a signal encoding, cut apart one
/// field at a time.
#[verifier::rlimit(100)]
proof fn lemma_signal_decompose(s: Seq<char>, pos: int, m: SignalModel, rest: Seq<char>)
    requires
        0 <= pos <= s.len(),
        s.len() <= usize::MAX,
        s.skip(pos) == spec_enc_signal(m) + rest,
    ensures
        ({
            let e1 = spec_enc_signal_type(m.signal);
            let e2 = spec_enc_object(m.content);
            let e3 = spec_enc_u64(m.instance_number as nat);
            let e4 = spec_enc_u64(m.round_number as nat);
            let q1 = pos + 1;
            let q2 = q1 + e1.len();
            let q3 = q2 + e2.len();
            let q4 = q3 + e3.len();
            let q5 = q4 + e4.len();
            &&& s.skip(pos) == seq!['S'] + (e1 + (e2 + (e3 + (e4 + rest))))
            &&& s.skip(q1) == e1 + (e2 + (e3 + (e4 + rest)))
            &&& s.skip(q2) == e2 + (e3 + (e4 + rest))
            &&& s.skip(q3) == e3 + (e4 + rest)
            &&& s.skip(q4) == e4 + rest
            &&& q5 == pos + spec_enc_signal(m).len()
            &&& q5 <= s.len()
        }),
{
    let e1 = spec_enc_signal_type(m.signal);
    let e2 = spec_enc_object(m.content);
    let e3 = spec_enc_u64(m.instance_number as nat);
    let e4 = spec_enc_u64(m.round_number as nat);
    assert(s.skip(pos) =~= seq!['S'] + (e1 + (e2 + (e3 + (e4 + rest)))));
    lemma_skip_concat(s, pos, seq!['S'], (e1 + (e2 + (e3 + (e4 + rest)))));
    lemma_skip_concat(s, pos + 1, e1, (e2 + (e3 + (e4 + rest))));
    lemma_skip_concat(s, pos + 1 + e1.len(), e2, (e3 + (e4 + rest)));
    lemma_skip_concat(s, pos + 1 + e1.len() + e2.len(), e3, (e4 + rest));
    lemma_skip_concat(s, pos + 1 + e1.len() + e2.len() + e3.len(), e4, rest);
}

/// Read a signal starting at `pos`: the exact inverse of
/// `write_signal`.
#[verifier::rlimit(100)]
pub fn parse_signal(s: &str, pos: usize) -> (r: Option<(Signal, usize)>)
    requires
        pos <= s@.len(),
    ensures
        forall|m: SignalModel, rest: Seq<char>|
            s@.skip(pos as int) == spec_enc_signal(m) + rest ==> (r matches Some(p) && p.0@ == m
                && p.1 == pos + spec_enc_signal(m).len()),
        r matches Some(p) ==> pos < p.1 <= s@.len() && s@.subrange(pos as int, p.1 as int)
            == spec_enc_signal(p.0@),
{
    let _ul: usize = s.unicode_len();
    let step0 = parse_exact(s, pos, 'S');
    let p1 = match step0 {
        Some(p) => p,
        None => {
            proof {
                assert forall|m: SignalModel, rest: Seq<char>|
                    s@.skip(pos as int) == spec_enc_signal(m) + rest implies false by {
                    lemma_signal_decompose(s@, pos as int, m, rest);
                }
            }
            return None;
        },
    };
    let step1 = parse_signal_type(s, p1);
    let (signal, p2) = match step1 {
        Some(p) => p,
        None => {
            proof {
                assert forall|m: SignalModel, rest: Seq<char>|
                    s@.skip(pos as int) == spec_enc_signal(m) + rest implies false by {
                    lemma_signal_decompose(s@, pos as int, m, rest);
                }
            }
            return None;
        },
    };
    let step2 = parse_object(s, p2);
    let (content, p3) = match step2 {
        Some(p) => p,
        None => {
            proof {
                assert forall|m: SignalModel, rest: Seq<char>|
                    s@.skip(pos as int) == spec_enc_signal(m) + rest implies false by {
                    lemma_signal_decompose(s@, pos as int, m, rest);
                }
            }
            return None;
        },
    };
    let step3 = parse_u32(s, p3);
    let (instance_number, p4) = match step3 {
        Some(p) => p,
        None => {
            proof {
                assert forall|m: SignalModel, rest: Seq<char>|
                    s@.skip(pos as int) == spec_enc_signal(m) + rest implies false by {
                    lemma_signal_decompose(s@, pos as int, m, rest);
                }
            }
            return None;
        },
    };
    let step4 = parse_u32(s, p4);
    let (round_number, p5) = match step4 {
        Some(p) => p,
        None => {
            proof {
                assert forall|m: SignalModel, rest: Seq<char>|
                    s@.skip(pos as int) == spec_enc_signal(m) + rest implies false by {
                    lemma_signal_decompose(s@, pos as int, m, rest);
                }
            }
            return None;
        },
    };
    let result = Signal { signal, content, instance_number, round_number };
    proof {
        assert forall|m: SignalModel, rest: Seq<char>|
            s@.skip(pos as int) == spec_enc_signal(m) + rest implies result@ == m && p5 == pos
            + spec_enc_signal(m).len() by {
            lemma_signal_decompose(s@, pos as int, m, rest);
            
            assert(result@ =~= m);
        }
    }
    proof {
        lemma_subrange_join(s@, pos as int, p1 as int, p2 as int);
        lemma_subrange_join(s@, pos as int, p2 as int, p3 as int);
        lemma_subrange_join(s@, pos as int, p3 as int, p4 as int);
        lemma_subrange_join(s@, pos as int, p4 as int, p5 as int);
        assert(s@.subrange(pos as int, p5 as int) == spec_enc_signal(result@));
    }
    Some((result, p5))
}


/// Encode one message as a wire frame.
pub fn encode_message(x: &Message) -> (r: String)
    ensures
        r@ == spec_enc_message(x@),
{
    let mut out = String::new();
    write_message(&mut out, x);
    proof {
        assert(out@ =~= spec_enc_message(x@));
    }
    out
}

/// Decode one wire frame as a message: the exact inverse of
/// `encode_message`. A frame that is not a whole such encoding is refused.
pub fn decode_message(s: &str) -> (r: Option<Message>)
    ensures
        forall|m: MessageModel| s@ == spec_enc_message(m) ==> (r matches Some(x) && x@ == m),
        r matches Some(x) ==> s@ == spec_enc_message(x@),
{
    let len = s.unicode_len();
    match parse_message(s, 0) {
        Some((x, p)) => {
            if p == len {
                proof {
                    assert forall|m: MessageModel| s@ == spec_enc_message(m) implies x@ == m by {
                        assert(s@.skip(0) =~= spec_enc_message(m) + Seq::<char>::empty());
                    }
                    assert(s@.subrange(0, len as int) =~= s@);
                    assert(s@ == spec_enc_message(x@));
                }
                Some(x)
            } else {
                proof {
                    assert forall|m: MessageModel| s@ == spec_enc_message(m) implies false by {
                        assert(s@.skip(0) =~= spec_enc_message(m) + Seq::<char>::empty());
                    }
                }
                None
            }
        },
        None => {
            proof {
                assert forall|m: MessageModel| s@ == spec_enc_message(m) implies false by {
                    assert(s@.skip(0) =~= spec_enc_message(m) + Seq::<char>::empty());
                }
            }
            None
        },
    }
}

/// Encode one report as a wire frame.
pub fn encode_report(x: &Report) -> (r: String)
    ensures
        r@ == spec_enc_report(x@),
{
    let mut out = String::new();
    write_report(&mut out, x);
    proof {
        assert(out@ =~= spec_enc_report(x@));
    }
    out
}

/// Decode one wire frame as a report: the exact inverse of
/// `encode_report`. A frame that is not a whole such encoding is refused.
pub fn decode_report(s: &str) -> (r: Option<Report>)
    ensures
        forall|m: ReportModel| s@ == spec_enc_report(m) ==> (r matches Some(x) && x@ == m),
        r matches Some(x) ==> s@ == spec_enc_report(x@),
{
    let len = s.unicode_len();
    match parse_report(s, 0) {
        Some((x, p)) => {
            if p == len {
                proof {
                    assert forall|m: ReportModel| s@ == spec_enc_report(m) implies x@ == m by {
                        assert(s@.skip(0) =~= spec_enc_report(m) + Seq::<char>::empty());
                    }
                    assert(s@.subrange(0, len as int) =~= s@);
                    assert(s@ == spec_enc_report(x@));
                }
                Some(x)
            } else {
                proof {
                    assert forall|m: ReportModel| s@ == spec_enc_report(m) implies false by {
                        assert(s@.skip(0) =~= spec_enc_report(m) + Seq::<char>::empty());
                    }
                }
                None
            }
        },
        None => {
            proof {
                assert forall|m: ReportModel| s@ == spec_enc_report(m) implies false by {
                    assert(s@.skip(0) =~= spec_enc_report(m) + Seq::<char>::empty());
                }
            }
            None
        },
    }
}

/// Encode one aggregated report as a wire frame.
pub fn encode_aggregated_report(x: &AggregatedReport) -> (r: String)
    ensures
        r@ == spec_enc_aggregated_report(x@),
{
    let mut out = String::new();
    write_aggregated_report(&mut out, x);
    proof {
        assert(out@ =~= spec_enc_aggregated_report(x@));
    }
    out
}

/// Decode one wire frame as a aggregated report: the exact inverse of
/// `encode_aggregated_report`. A frame that is not a whole such encoding is refused.
pub fn decode_aggregated_report(s: &str) -> (r: Option<AggregatedReport>)
    ensures
        forall|m: AggregatedReportModel| s@ == spec_enc_aggregated_report(m) ==> (r matches Some(x) && x@ == m),
        r matches Some(x) ==> s@ == spec_enc_aggregated_report(x@),
{
    let len = s.unicode_len();
    match parse_aggregated_report(s, 0) {
        Some((x, p)) => {
            if p == len {
                proof {
                    assert forall|m: AggregatedReportModel| s@ == spec_enc_aggregated_report(m) implies x@ == m by {
                        assert(s@.skip(0) =~= spec_enc_aggregated_report(m) + Seq::<char>::empty());
                    }
                    assert(s@.subrange(0, len as int) =~= s@);
                    assert(s@ == spec_enc_aggregated_report(x@));
                }
                Some(x)
            } else {
                proof {
                    assert forall|m: AggregatedReportModel| s@ == spec_enc_aggregated_report(m) implies false by {
                        assert(s@.skip(0) =~= spec_enc_aggregated_report(m) + Seq::<char>::empty());
                    }
                }
                None
            }
        },
        None => {
            proof {
                assert forall|m: AggregatedReportModel| s@ == spec_enc_aggregated_report(m) implies false by {
                    assert(s@.skip(0) =~= spec_enc_aggregated_report(m) + Seq::<char>::empty());
                }
            }
            None
        },
    }
}

/// Encode one barycentric report as a wire frame.
pub fn encode_barycentric_report(x: &BarycentricReport) -> (r: String)
    ensures
        r@ == spec_enc_barycentric_report(x@),
{
    let mut out = String::new();
    write_barycentric_report(&mut out, x);
    proof {
        assert(out@ =~= spec_enc_barycentric_report(x@));
    }
    out
}

/// Decode one wire frame as a barycentric report: the exact inverse of
/// `encode_barycentric_report`. A frame that is not a whole such encoding is refused.
pub fn decode_barycentric_report(s: &str) -> (r: Option<BarycentricReport>)
    ensures
        forall|m: BarycentricReportModel| s@ == spec_enc_barycentric_report(m) ==> (r matches Some(x) && x@ == m),
        r matches Some(x) ==> s@ == spec_enc_barycentric_report(x@),
{
    let len = s.unicode_len();
    match parse_barycentric_report(s, 0) {
        Some((x, p)) => {
            if p == len {
                proof {
                    assert forall|m: BarycentricReportModel| s@ == spec_enc_barycentric_report(m) implies x@ == m by {
                        assert(s@.skip(0) =~= spec_enc_barycentric_report(m) + Seq::<char>::empty());
                    }
                    assert(s@.subrange(0, len as int) =~= s@);
                    assert(s@ == spec_enc_barycentric_report(x@));
                }
                Some(x)
            } else {
                proof {
                    assert forall|m: BarycentricReportModel| s@ == spec_enc_barycentric_report(m) implies false by {
                        assert(s@.skip(0) =~= spec_enc_barycentric_report(m) + Seq::<char>::empty());
                    }
                }
                None
            }
        },
        None => {
            proof {
                assert forall|m: BarycentricReportModel| s@ == spec_enc_barycentric_report(m) implies false by {
                    assert(s@.skip(0) =~= spec_enc_barycentric_report(m) + Seq::<char>::empty());
                }
            }
            None
        },
    }
}

/// Encode one signal as a wire frame.
pub fn encode_signal(x: &Signal) -> (r: String)
    ensures
        r@ == spec_enc_signal(x@),
{
    let mut out = String::new();
    write_signal(&mut out, x);
    proof {
        assert(out@ =~= spec_enc_signal(x@));
    }
    out
}

/// Decode one wire frame as a signal: the exact inverse of
/// `encode_signal`. A frame that is not a whole such encoding is refused.
pub fn decode_signal(s: &str) -> (r: Option<Signal>)
    ensures
        forall|m: SignalModel| s@ == spec_enc_signal(m) ==> (r matches Some(x) && x@ == m),
        r matches Some(x) ==> s@ == spec_enc_signal(x@),
{
    let len = s.unicode_len();
    match parse_signal(s, 0) {
        Some((x, p)) => {
            if p == len {
                proof {
                    assert forall|m: SignalModel| s@ == spec_enc_signal(m) implies x@ == m by {
                        assert(s@.skip(0) =~= spec_enc_signal(m) + Seq::<char>::empty());
                    }
                    assert(s@.subrange(0, len as int) =~= s@);
                    assert(s@ == spec_enc_signal(x@));
                }
                Some(x)
            } else {
                proof {
                    assert forall|m: SignalModel| s@ == spec_enc_signal(m) implies false by {
                        assert(s@.skip(0) =~= spec_enc_signal(m) + Seq::<char>::empty());
                    }
                }
                None
            }
        },
        None => {
            proof {
                assert forall|m: SignalModel| s@ == spec_enc_signal(m) implies false by {
                    assert(s@.skip(0) =~= spec_enc_signal(m) + Seq::<char>::empty());
                }
            }
            None
        },
    }
}

/// Encode one object as a wire frame.
pub fn encode_object(x: &ObjectContent) -> (r: String)
    ensures
        r@ == spec_enc_object(x@),
{
    let mut out = String::new();
    write_object(&mut out, x);
    proof {
        assert(out@ =~= spec_enc_object(x@));
    }
    out
}

/// Decode one wire frame as a object: the exact inverse of
/// `encode_object`. A frame that is not a whole such encoding is refused.
pub fn decode_object(s: &str) -> (r: Option<ObjectContent>)
    ensures
        forall|m: ObjectContentModel| s@ == spec_enc_object(m) ==> (r matches Some(x) && x@ == m),
        r matches Some(x) ==> s@ == spec_enc_object(x@),
{
    let len = s.unicode_len();
    match parse_object(s, 0) {
        Some((x, p)) => {
            if p == len {
                proof {
                    assert forall|m: ObjectContentModel| s@ == spec_enc_object(m) implies x@ == m by {
                        assert(s@.skip(0) =~= spec_enc_object(m) + Seq::<char>::empty());
                    }
                    assert(s@.subrange(0, len as int) =~= s@);
                    assert(s@ == spec_enc_object(x@));
                }
                Some(x)
            } else {
                proof {
                    assert forall|m: ObjectContentModel| s@ == spec_enc_object(m) implies false by {
                        assert(s@.skip(0) =~= spec_enc_object(m) + Seq::<char>::empty());
                    }
                }
                None
            }
        },
        None => {
            proof {
                assert forall|m: ObjectContentModel| s@ == spec_enc_object(m) implies false by {
                    assert(s@.skip(0) =~= spec_enc_object(m) + Seq::<char>::empty());
                }
            }
            None
        },
    }
}

/// Decode one wire frame as what the basic layer accepts: a message or a
/// report. Anything else is dropped by returning nothing.
pub fn decode_recv_object(s: &str) -> (r: Option<RecvObject>)
    ensures
        forall|m: MessageModel|
            s@ == spec_enc_message(m) ==> (r matches Some(o) && o@ == RecvObjectModel::Message(m)),
        forall|q: ReportModel|
            s@ == spec_enc_report(q) ==> (r matches Some(o) && o@ == RecvObjectModel::Collection(
                q,
            )),
        r matches Some(o) ==> (match o@ {
            RecvObjectModel::Message(m) => s@ == spec_enc_message(m),
            RecvObjectModel::Collection(q) => s@ == spec_enc_report(q),
        }),
{
    let len = s.unicode_len();
    if len == 0 {
        proof {
            assert forall|m: MessageModel| s@ == spec_enc_message(m) implies false by {
                assert(spec_enc_message(m).len() >= 1);
            }
            assert forall|q: ReportModel| s@ == spec_enc_report(q) implies false by {
                assert(spec_enc_report(q).len() >= 1);
            }
        }
        return None;
    }
    let t = s.get_char(0);
    proof {
        assert forall|m: MessageModel| s@ == spec_enc_message(m) implies s@[0] == 'M' by {
            assert(spec_enc_message(m)[0] == 'M');
        }
        assert forall|q: ReportModel| s@ == spec_enc_report(q) implies s@[0] == 'R' by {
            assert(spec_enc_report(q)[0] == 'R');
        }
    }
    if t == 'M' {
        match decode_message(s) {
            Some(m) => Some(RecvObject::Message(m)),
            None => None,
        }
    } else if t == 'R' {
        match decode_report(s) {
            Some(q) => Some(RecvObject::Collection(q)),
            None => None,
        }
    } else {
        None
    }
}

} // verus!
