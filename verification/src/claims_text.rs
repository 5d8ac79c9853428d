//! The canonical claims text: the JSON object a token's payload carries.
//!
//! The claims of a token are written as one JSON object with the fields
//! `user_id`, `username`, `flag`, `exp` and `iat`, in that order, with no
//! spaces, numbers in plain decimal and strings escaped minimally (`\"`,
//! `\\`, and `\u00XX` for control characters). `json_of` is that text;
//! `build_claims_json` produces it and `parse_claims_json` reads exactly
//! it back: parsing accepts a string if and only if it is the canonical
//! text of some claims, and then returns those claims.

use vstd::prelude::*;
use crate::text::{chars_to_string, push_char, str_to_chars};

verus! {

// ---------------------------------------------------------------------------
// Characters
// ---------------------------------------------------------------------------

/// A decimal digit.
pub open spec fn is_digit(c: char) -> bool {
    48 <= c as u32 <= 57
}

/// The value of a decimal digit.
pub open spec fn digit_val(c: char) -> nat {
    (c as u32 - 48) as nat
}

/// The character of a decimal digit value.
pub open spec fn digit_char(d: int) -> char {
    (48 + d) as char
}

/// A lowercase hexadecimal digit.
pub open spec fn is_lhex(c: char) -> bool {
    is_digit(c) || 97 <= c as u32 <= 102
}

/// The value of a lowercase hexadecimal digit.
pub open spec fn lhex_val(c: char) -> nat {
    if is_digit(c) {
        digit_val(c)
    } else {
        (c as u32 - 97 + 10) as nat
    }
}

/// The character of a hexadecimal digit value, lowercase.
pub open spec fn lhex_char(d: int) -> char {
    if d < 10 {
        (48 + d) as char
    } else {
        (97 + d - 10) as char
    }
}

proof fn lemma_lhex_char_val(d: int)
    requires
        0 <= d < 16,
    ensures
        is_lhex(lhex_char(d)),
        lhex_val(lhex_char(d)) == d,
        !(lhex_char(d) == '"'),
        !(lhex_char(d) == '\\'),
        (lhex_char(d) as u32) >= 32,
{
}

// ---------------------------------------------------------------------------
// Decimal numbers
// ---------------------------------------------------------------------------

/// The decimal digits of `n`, most significant first.
pub open spec fn dec_digits(n: nat) -> Seq<char>
    decreases n,
{
    if n < 10 {
        seq![digit_char(n as int)]
    } else {
        dec_digits(n / 10).push(digit_char((n % 10) as int))
    }
}

/// The decimal text of `v`: a minus sign before the magnitude when negative.
pub open spec fn dec_int(v: int) -> Seq<char> {
    if v < 0 {
        seq!['-'] + dec_digits((-v) as nat)
    } else {
        dec_digits(v as nat)
    }
}

/// The value of a digit string, most significant first.
pub open spec fn num_of(ds: Seq<char>) -> nat
    decreases ds.len(),
{
    if ds.len() == 0 {
        0
    } else {
        num_of(ds.drop_last()) * 10 + digit_val(ds.last())
    }
}

/// The decimal text of `n` is non-empty, all digits, starts with `'0'`
/// exactly when `n` is zero, and reads back as `n`.
pub proof fn lemma_dec_digits(n: nat)
    ensures
        dec_digits(n).len() >= 1,
        forall|i: int| 0 <= i < dec_digits(n).len() ==> is_digit(#[trigger] dec_digits(n)[i]),
        dec_digits(n)[0] == '0' <==> n == 0,
        num_of(dec_digits(n)) == n,
    decreases n,
{
    if n < 10 {
        assert(digit_char(n as int) as u32 == 48 + n);
        assert(digit_val(digit_char(n as int)) == n);
        assert(dec_digits(n) =~= seq![digit_char(n as int)]);
        assert(dec_digits(n).drop_last() =~= Seq::<char>::empty());
        assert(num_of(Seq::<char>::empty()) == 0);
        assert(dec_digits(n).last() == digit_char(n as int));
        assert(num_of(dec_digits(n)) == num_of(dec_digits(n).drop_last()) * 10 + digit_val(
            dec_digits(n).last(),
        ));
    } else {
        lemma_dec_digits(n / 10);
        let pre = dec_digits(n / 10);
        let d = digit_char((n % 10) as int);
        assert(d as u32 == 48 + n % 10);
        assert(digit_val(d) == n % 10);
        assert(dec_digits(n) =~= pre.push(d));
        assert(dec_digits(n).drop_last() =~= pre);
        assert(dec_digits(n).last() == d);
        assert(num_of(dec_digits(n)) == num_of(pre) * 10 + digit_val(d));
        assert(n / 10 * 10 + n % 10 == n);
        assert(forall|i: int| 0 <= i < pre.len() ==> is_digit(#[trigger] pre[i]));
        assert(is_digit(d));
        assert(dec_digits(n)[0] == pre[0]);
        assert(n / 10 > 0);
    }
}

// ---------------------------------------------------------------------------
// String escaping
// ---------------------------------------------------------------------------

/// How one character is written inside a JSON string: quotes and
/// backslashes escaped, control characters as `\u00XX` with lowercase
/// hexadecimal digits, everything else as itself.
pub open spec fn esc_char(c: char) -> Seq<char> {
    if c == '"' {
        seq!['\\', '"']
    } else if c == '\\' {
        seq!['\\', '\\']
    } else if (c as u32) < 32 {
        seq!['\\', 'u', '0', '0', lhex_char((c as u32 / 16) as int), lhex_char(
            (c as u32 % 16) as int,
        )]
    } else {
        seq![c]
    }
}

/// How a text is written inside a JSON string.
pub open spec fn esc(s: Seq<char>) -> Seq<char>
    decreases s.len(),
{
    if s.len() == 0 {
        Seq::empty()
    } else {
        esc_char(s[0]) + esc(s.skip(1))
    }
}

/// Escaping one more character appends its escape.
pub proof fn lemma_esc_push(s: Seq<char>, c: char)
    ensures
        esc(s.push(c)) == esc(s) + esc_char(c),
    decreases s.len(),
{
    if s.len() == 0 {
        assert(s.push(c)[0] == c);
        assert(s.push(c).skip(1) =~= Seq::<char>::empty());
        assert(esc(Seq::<char>::empty()) =~= Seq::<char>::empty());
        assert(esc(s.push(c)) == esc_char(s.push(c)[0]) + esc(s.push(c).skip(1)));
        assert(esc(s.push(c)) =~= esc_char(c));
        assert(esc(s) + esc_char(c) =~= esc_char(c));
    } else {
        assert(s.push(c).skip(1) =~= s.skip(1).push(c));
        lemma_esc_push(s.skip(1), c);
        assert(s.push(c)[0] == s[0]);
        assert(esc(s.push(c)) =~= esc_char(s[0]) + (esc(s.skip(1)) + esc_char(c)));
        assert(esc_char(s[0]) + (esc(s.skip(1)) + esc_char(c)) =~= (esc_char(s[0]) + esc(
            s.skip(1),
        )) + esc_char(c));
    }
}

// ---------------------------------------------------------------------------
// The canonical claims object
// ---------------------------------------------------------------------------

/// The text before the `user_id` value.
pub open spec fn lit_head() -> Seq<char> {
    "{\"user_id\":"@
}

/// The text between the `user_id` value and the `username` content.
pub open spec fn lit_username() -> Seq<char> {
    ",\"username\":\""@
}

/// The text between the `username` closing quote and the `flag` content.
pub open spec fn lit_flag() -> Seq<char> {
    ",\"flag\":\""@
}

/// The text between the `flag` closing quote and the `exp` value.
pub open spec fn lit_exp() -> Seq<char> {
    ",\"exp\":"@
}

/// The text between the `exp` value and the `iat` value.
pub open spec fn lit_iat() -> Seq<char> {
    ",\"iat\":"@
}

/// The canonical claims text.
pub open spec fn json_of(
    user_id: u32,
    username: Seq<char>,
    flag: Seq<char>,
    exp: i64,
    iat: i64,
) -> Seq<char> {
    lit_head() + dec_digits(user_id as nat) + lit_username() + esc(username) + seq!['"']
        + lit_flag() + esc(flag) + seq!['"'] + lit_exp() + dec_int(exp as int) + lit_iat()
        + dec_int(iat as int) + seq!['}']
}

// ---------------------------------------------------------------------------
// Parsing, at the specification level
// ---------------------------------------------------------------------------

/// The first position at or after `i` that does not hold a digit.
pub open spec fn digits_end(s: Seq<char>, i: int) -> int
    decreases s.len() - i,
{
    if i < s.len() && is_digit(s[i]) {
        digits_end(s, i + 1)
    } else {
        i
    }
}

/// The digit scan stays in range and stops at the first non-digit.
proof fn lemma_digits_end(s: Seq<char>, i: int)
    requires
        0 <= i <= s.len(),
    ensures
        i <= digits_end(s, i) <= s.len(),
        forall|k: int| i <= k < digits_end(s, i) ==> is_digit(s[k]),
        digits_end(s, i) == s.len() || !is_digit(s[digits_end(s, i)]),
    decreases s.len() - i,
{
    if i < s.len() && is_digit(s[i]) {
        lemma_digits_end(s, i + 1);
    }
}

/// The digit scan over a run of digits bounded by a non-digit consumes
/// exactly the run.
proof fn lemma_digits_end_of_run(s: Seq<char>, i: int, len: int)
    requires
        0 <= i,
        0 <= len,
        i + len <= s.len(),
        forall|k: int| i <= k < i + len ==> is_digit(s[k]),
        i + len == s.len() || !is_digit(s[i + len]),
    ensures
        digits_end(s, i) == i + len,
    decreases len,
{
    if len > 0 {
        lemma_digits_end_of_run(s, i + 1, len - 1);
    }
}

/// Reads a decimal natural number at `i`: a single `'0'`, or a maximal
/// run of digits not starting with `'0'`. Returns the value and the
/// position after the digits.
pub open spec fn parse_nat_at(s: Seq<char>, i: int) -> Option<(nat, int)> {
    if 0 <= i < s.len() && is_digit(s[i]) {
        if s[i] == '0' {
            Some((0 as nat, i + 1))
        } else {
            let j = digits_end(s, i);
            Some((num_of(s.subrange(i, j)), j))
        }
    } else {
        None
    }
}

/// Reads a decimal integer at `i`: an optional minus sign (never before
/// zero) and a natural number.
pub open spec fn parse_int_at(s: Seq<char>, i: int) -> Option<(int, int)> {
    if 0 <= i < s.len() && s[i] == '-' {
        match parse_nat_at(s, i + 1) {
            Some((m, j)) => if m == 0 {
                None
            } else {
                Some((-(m as int), j))
            },
            None => None,
        }
    } else {
        match parse_nat_at(s, i) {
            Some((m, j)) => Some((m as int, j)),
            None => None,
        }
    }
}

/// Reads a JSON string body at `i`, up to and through its closing quote.
/// Exactly the escapes the writer emits are accepted: `\"`, `\\`, and
/// lowercase `\u00XX` for values below 32; a bare control character or any
/// other escape is refused. Returns the unescaped content and the position
/// after the closing quote.
pub open spec fn parse_str_at(s: Seq<char>, i: int) -> Option<(Seq<char>, int)>
    decreases s.len() - i,
{
    if !(0 <= i < s.len()) {
        None
    } else if s[i] == '"' {
        Some((Seq::empty(), i + 1))
    } else if s[i] == '\\' {
        if i + 1 < s.len() && (s[i + 1] == '"' || s[i + 1] == '\\') {
            match parse_str_at(s, i + 2) {
                Some((t, j)) => Some((seq![s[i + 1]] + t, j)),
                None => None,
            }
        } else if i + 5 < s.len() && s[i + 1] == 'u' && s[i + 2] == '0' && s[i + 3] == '0'
            && is_lhex(s[i + 4]) && is_lhex(s[i + 5]) && lhex_val(s[i + 4]) * 16 + lhex_val(
            s[i + 5],
        ) < 32 {
            match parse_str_at(s, i + 6) {
                Some((t, j)) => Some(
                    (seq![((lhex_val(s[i + 4]) * 16 + lhex_val(s[i + 5])) as char)] + t, j),
                ),
                None => None,
            }
        } else {
            None
        }
    } else if (s[i] as u32) < 32 {
        None
    } else {
        match parse_str_at(s, i + 1) {
            Some((t, j)) => Some((seq![s[i]] + t, j)),
            None => None,
        }
    }
}

/// Matches the fixed text `lit` at `i`; returns the position after it.
pub open spec fn parse_lit_at(s: Seq<char>, i: int, lit: Seq<char>) -> Option<int> {
    if 0 <= i && i + lit.len() <= s.len() && s.subrange(i, i + lit.len()) == lit {
        Some(i + lit.len())
    } else {
        None
    }
}

/// Reads a whole canonical claims text. `Some` exactly on the image of
/// `json_of` (shown by `lemma_parse_of_json` and `lemma_parse_claims_sound`).
pub open spec fn spec_parse_claims(s: Seq<char>) -> Option<(u32, Seq<char>, Seq<char>, i64, i64)> {
    match parse_lit_at(s, 0, lit_head()) {
        None => None,
        Some(i1) => match parse_nat_at(s, i1) {
            None => None,
            Some((uid, i2)) => if uid > u32::MAX {
                None
            } else {
                match parse_lit_at(s, i2, lit_username()) {
                    None => None,
                    Some(i3) => match parse_str_at(s, i3) {
                        None => None,
                        Some((un, i4)) => match parse_lit_at(s, i4, lit_flag()) {
                            None => None,
                            Some(i5) => match parse_str_at(s, i5) {
                                None => None,
                                Some((fl, i6)) => match parse_lit_at(s, i6, lit_exp()) {
                                    None => None,
                                    Some(i7) => match parse_int_at(s, i7) {
                                        None => None,
                                        Some((exp, i8)) => if !(i64::MIN <= exp <= i64::MAX) {
                                            None
                                        } else {
                                            match parse_lit_at(s, i8, lit_iat()) {
                                                None => None,
                                                Some(i9) => match parse_int_at(s, i9) {
                                                    None => None,
                                                    Some((iat, i10)) => if !(i64::MIN <= iat
                                                        <= i64::MAX) {
                                                        None
                                                    } else if i10 + 1 == s.len() && s[i10] == '}' {
                                                        Some(
                                                            (
                                                                uid as u32,
                                                                un,
                                                                fl,
                                                                exp as i64,
                                                                iat as i64,
                                                            ),
                                                        )
                                                    } else {
                                                        None
                                                    },
                                                },
                                            }
                                        },
                                    },
                                },
                            },
                        },
                    },
                }
            },
        },
    }
}

// ---------------------------------------------------------------------------
// Each reader reads its writer back (completeness), and reads nothing else
// (soundness)
// ---------------------------------------------------------------------------

/// A digit character reads back as itself.
proof fn lemma_digit_roundtrip(c: char)
    requires
        is_digit(c),
    ensures
        digit_val(c) < 10,
        digit_char(digit_val(c) as int) == c,
{
}

/// A digit character other than `'0'` has a positive value.
proof fn lemma_digit_nonzero(c: char)
    requires
        is_digit(c),
        c != '0',
    ensures
        digit_val(c) >= 1,
{
}

/// A digit run with a non-zero lead has a positive value.
proof fn lemma_num_of_pos(ds: Seq<char>)
    requires
        ds.len() >= 1,
        forall|k: int| 0 <= k < ds.len() ==> is_digit(#[trigger] ds[k]),
        ds[0] != '0',
    ensures
        num_of(ds) >= 1,
    decreases ds.len(),
{
    if ds.len() == 1 {
        assert(ds.last() == ds[0]);
        assert(is_digit(ds[0]));
        lemma_digit_nonzero(ds[0]);
        assert(num_of(ds.drop_last()) == 0) by {
            assert(ds.drop_last() =~= Seq::<char>::empty());
        }
    } else {
        let pre = ds.drop_last();
        assert(pre[0] == ds[0]);
        assert(forall|k: int| 0 <= k < pre.len() ==> is_digit(#[trigger] pre[k]));
        lemma_num_of_pos(pre);
    }
}

/// A canonical digit run (no leading zero) is the decimal text of its value.
proof fn lemma_dec_of_num(ds: Seq<char>)
    requires
        ds.len() >= 1,
        forall|k: int| 0 <= k < ds.len() ==> is_digit(#[trigger] ds[k]),
        ds.len() == 1 || ds[0] != '0',
    ensures
        dec_digits(num_of(ds)) == ds,
    decreases ds.len(),
{
    if ds.len() == 1 {
        let c = ds[0];
        assert(is_digit(c));
        lemma_digit_roundtrip(c);
        assert(ds.drop_last() =~= Seq::<char>::empty());
        assert(num_of(Seq::<char>::empty()) == 0);
        assert(ds.last() == c);
        assert(num_of(ds) == digit_val(c));
        assert(dec_digits(num_of(ds)) =~= seq![c]);
        assert(ds =~= seq![c]);
    } else {
        let pre = ds.drop_last();
        let c = ds.last();
        assert(c == ds[ds.len() - 1]);
        assert(is_digit(c));
        lemma_digit_roundtrip(c);
        assert(pre[0] == ds[0]);
        assert(forall|k: int| 0 <= k < pre.len() ==> is_digit(#[trigger] pre[k]));
        lemma_num_of_pos(pre);
        lemma_dec_of_num(pre);
        let m = num_of(pre);
        let v = digit_val(c);
        let n = num_of(ds);
        assert(n == m * 10 + v);
        assert(n >= 10) by (nonlinear_arith)
            requires
                n == m * 10 + v,
                m >= 1,
                v >= 0,
        ;
        assert(n / 10 == m && n % 10 == v) by (nonlinear_arith)
            requires
                n == m * 10 + v,
                0 <= v < 10,
                m >= 0,
        ;
        assert(digit_char(v as int) == c);
        assert(dec_digits(n) =~= dec_digits(m).push(digit_char(v as int)));
        assert(dec_digits(m).push(c) =~= ds);
    }
}

/// The natural-number reader reads the decimal text of `n` back as `n`
/// whenever a non-digit (or the end) follows it.
proof fn lemma_parse_nat_complete(s: Seq<char>, i: int, n: nat)
    requires
        0 <= i,
        i + dec_digits(n).len() <= s.len(),
        s.subrange(i, i + dec_digits(n).len()) == dec_digits(n),
        i + dec_digits(n).len() == s.len() || !is_digit(s[i + dec_digits(n).len()]),
    ensures
        parse_nat_at(s, i) == Some((n, i + dec_digits(n).len())),
{
    lemma_dec_digits(n);
    let len = dec_digits(n).len() as int;
    assert forall|k: int| i <= k < i + len implies #[trigger] s[k] == dec_digits(n)[k - i]
        && is_digit(s[k]) by {
        assert(s.subrange(i, i + len)[k - i] == s[k]);
    }
    assert(s[i] == dec_digits(n)[0]);
    if n == 0 {
        assert(dec_digits(0) =~= seq![digit_char(0)]);
        assert(s[i] == '0');
    } else {
        assert(s[i] != '0');
        lemma_digits_end_of_run(s, i, len);
        assert(s.subrange(i, i + len) == dec_digits(n));
        assert(num_of(s.subrange(i, i + len)) == n);
    }
}

/// The natural-number reader accepts only the canonical decimal text of
/// the value it returns.
proof fn lemma_parse_nat_sound(s: Seq<char>, i: int)
    requires
        parse_nat_at(s, i) is Some,
    ensures
        ({
            let (n, j) = parse_nat_at(s, i)->Some_0;
            &&& i < j <= s.len()
            &&& s.subrange(i, j) == dec_digits(n)
        }),
{
    let (n, j) = parse_nat_at(s, i)->Some_0;
    if s[i] == '0' {
        assert(dec_digits(0) =~= seq![digit_char(0)]);
        assert(digit_char(0) == '0');
        assert(s.subrange(i, i + 1) =~= seq![s[i]]);
    } else {
        lemma_digits_end(s, i);
        assert(digits_end(s, i) == digits_end(s, i + 1));
        assert(j > i);
        let ds = s.subrange(i, j);
        assert(ds.len() >= 1);
        assert(forall|k: int| 0 <= k < ds.len() ==> #[trigger] ds[k] == s[i + k]);
        assert(forall|k: int| 0 <= k < ds.len() ==> is_digit(#[trigger] ds[k]));
        assert(ds[0] != '0');
        lemma_dec_of_num(ds);
    }
}

/// The integer reader reads the decimal text of `v` back as `v` whenever a
/// non-digit (or the end) follows it.
proof fn lemma_parse_int_complete(s: Seq<char>, i: int, v: int)
    requires
        0 <= i,
        i + dec_int(v).len() <= s.len(),
        s.subrange(i, i + dec_int(v).len()) == dec_int(v),
        i + dec_int(v).len() == s.len() || !is_digit(s[i + dec_int(v).len()]),
    ensures
        parse_int_at(s, i) == Some((v, i + dec_int(v).len())),
{
    if v >= 0 {
        assert(dec_int(v) == dec_digits(v as nat));
        lemma_dec_digits(v as nat);
        assert(s[i] == dec_digits(v as nat)[0]);
        assert(s[i] != '-');
        lemma_parse_nat_complete(s, i, v as nat);
    } else {
        let m = (-v) as nat;
        lemma_dec_digits(m);
        assert(dec_int(v) =~= seq!['-'] + dec_digits(m));
        assert(s[i] == dec_int(v)[0]);
        assert(s[i] == '-');
        assert forall|k: int| 0 <= k < dec_int(v).len() implies #[trigger] s[i + k] == dec_int(
            v,
        )[k] by {
            assert(s.subrange(i, i + dec_int(v).len())[k] == s[i + k]);
        }
        assert forall|k: int| 0 <= k < dec_digits(m).len() implies s.subrange(
            i + 1,
            i + 1 + dec_digits(m).len() as int,
        )[k] == dec_digits(m)[k] by {
            assert(s[i + (1 + k)] == dec_int(v)[1 + k]);
            assert(dec_int(v)[1 + k] == dec_digits(m)[k]);
        }
        assert(s.subrange(i + 1, i + 1 + dec_digits(m).len() as int) =~= dec_digits(m));
        lemma_parse_nat_complete(s, i + 1, m);
        assert(m >= 1);
    }
}

/// The integer reader accepts only the canonical decimal text of the value
/// it returns.
proof fn lemma_parse_int_sound(s: Seq<char>, i: int)
    requires
        parse_int_at(s, i) is Some,
    ensures
        ({
            let (v, j) = parse_int_at(s, i)->Some_0;
            &&& i < j <= s.len()
            &&& s.subrange(i, j) == dec_int(v)
        }),
{
    let (v, j) = parse_int_at(s, i)->Some_0;
    if 0 <= i < s.len() && s[i] == '-' {
        lemma_parse_nat_sound(s, i + 1);
        let (m, j2) = parse_nat_at(s, i + 1)->Some_0;
        assert(s.subrange(i, j) =~= seq!['-'] + s.subrange(i + 1, j));
        assert(dec_int(v) == seq!['-'] + dec_digits(m));
    } else {
        lemma_parse_nat_sound(s, i);
        let (m, j2) = parse_nat_at(s, i)->Some_0;
        assert(dec_int(v) == dec_digits(m));
    }
}

/// A character's scalar value casts back to the character.
proof fn lemma_char_scalar_roundtrip(c: char)
    ensures
        ((c as u32) as char) == c,
        (((c as u32) as int) as char) == c,
{
}

/// A lowercase hexadecimal digit character reads back as itself.
proof fn lemma_lhex_roundtrip(h: char)
    requires
        is_lhex(h),
    ensures
        lhex_val(h) < 16,
        lhex_char(lhex_val(h) as int) == h,
{
}

/// Splitting off the first character of a text splits its escape.
proof fn lemma_esc_cons(t: Seq<char>)
    requires
        t.len() >= 1,
    ensures
        esc(t) == esc_char(t[0]) + esc(t.skip(1)),
{
}

/// The string reader reads the escaped text of `t` (through a closing
/// quote) back as `t`.
proof fn lemma_parse_str_complete(s: Seq<char>, i: int, t: Seq<char>)
    requires
        0 <= i,
        i + esc(t).len() + 1 <= s.len(),
        s.subrange(i, i + esc(t).len() + 1) == esc(t) + seq!['"'],
    ensures
        parse_str_at(s, i) == Some((t, i + esc(t).len() + 1)),
    decreases t.len(),
{
    let e = esc(t);
    let endp = i + e.len() + 1;
    assert forall|k: int| 0 <= k < e.len() + 1 implies #[trigger] s[i + k] == (e + seq!['"'])[k] by {
        assert(s.subrange(i, endp)[k] == s[i + k]);
    }
    if t.len() == 0 {
        assert(e =~= Seq::<char>::empty());
        assert(s[i + 0] == '"');
        assert(t =~= Seq::<char>::empty());
    } else {
        let c = t[0];
        let rest = t.skip(1);
        lemma_esc_cons(t);
        let k0 = esc_char(c).len() as int;
        assert(e.len() == k0 + esc(rest).len());
        assert forall|k: int| 0 <= k < k0 implies #[trigger] s[i + k] == esc_char(c)[k] by {
            assert(s[i + k] == (e + seq!['"'])[k]);
            assert((e + seq!['"'])[k] == e[k]);
            assert(e[k] == esc_char(c)[k]);
        }
        assert forall|k: int| 0 <= k < esc(rest).len() + 1 implies s.subrange(i + k0, endp)[k]
            == (esc(rest) + seq!['"'])[k] by {
            assert(s[i + (k0 + k)] == (e + seq!['"'])[k0 + k]);
        }
        assert(s.subrange(i + k0, endp) =~= esc(rest) + seq!['"']);
        lemma_parse_str_complete(s, i + k0, rest);
        if c == '"' {
            assert(s[i + 0] == '\\');
            assert(s[i + 1] == '"');
            assert(seq![s[i + 1]] + rest =~= t);
        } else if c == '\\' {
            assert(s[i + 0] == '\\');
            assert(s[i + 1] == '\\');
            assert(seq![s[i + 1]] + rest =~= t);
        } else if (c as u32) < 32 {
            let cu = (c as u32) as int;
            assert(s[i + 0] == '\\');
            assert(s[i + 1] == 'u');
            assert(s[i + 2] == '0');
            assert(s[i + 3] == '0');
            assert(s[i + 4] == lhex_char(cu / 16));
            assert(s[i + 5] == lhex_char(cu % 16));
            lemma_lhex_char_val(cu / 16);
            lemma_lhex_char_val(cu % 16);
            assert(cu / 16 * 16 + cu % 16 == cu);
            assert(lhex_val(s[i + 4]) * 16 + lhex_val(s[i + 5]) == cu);
            lemma_char_scalar_roundtrip(c);
            assert((cu as char) == c);
            assert(seq![(cu as char)] + rest =~= t);
        } else {
            assert(s[i + 0] == c);
            assert(seq![s[i + 0]] + rest =~= t);
        }
    }
}

/// The string reader accepts only the escaped text of what it returns,
/// closed by one quote.
proof fn lemma_parse_str_sound(s: Seq<char>, i: int)
    requires
        parse_str_at(s, i) is Some,
    ensures
        ({
            let (t, j) = parse_str_at(s, i)->Some_0;
            &&& i < j <= s.len()
            &&& s.subrange(i, j) == esc(t) + seq!['"']
        }),
    decreases s.len() - i,
{
    let (t, j) = parse_str_at(s, i)->Some_0;
    if s[i] == '"' {
        assert(esc(Seq::<char>::empty()) =~= Seq::<char>::empty());
        assert(s.subrange(i, i + 1) =~= seq![s[i]]);
        assert(s.subrange(i, j) =~= esc(t) + seq!['"']);
    } else if s[i] == '\\' {
        if i + 1 < s.len() && (s[i + 1] == '"' || s[i + 1] == '\\') {
            lemma_parse_str_sound(s, i + 2);
            let (t2, j2) = parse_str_at(s, i + 2)->Some_0;
            assert(t =~= seq![s[i + 1]] + t2);
            assert(t[0] == s[i + 1]);
            assert(t.skip(1) =~= t2);
            lemma_esc_cons(t);
            assert(esc_char(t[0]) =~= seq![s[i], s[i + 1]]);
            assert(s.subrange(i, j) =~= seq![s[i], s[i + 1]] + s.subrange(i + 2, j));
            assert(s.subrange(i, j) =~= esc(t) + seq!['"']);
        } else {
            let a = lhex_val(s[i + 4]);
            let b = lhex_val(s[i + 5]);
            let hv = (a * 16 + b) as int;
            let c = (hv as char);
            lemma_parse_str_sound(s, i + 6);
            let (t2, j2) = parse_str_at(s, i + 6)->Some_0;
            assert(t =~= seq![c] + t2);
            assert(t[0] == c);
            assert(t.skip(1) =~= t2);
            lemma_esc_cons(t);
            lemma_lhex_roundtrip(s[i + 4]);
            lemma_lhex_roundtrip(s[i + 5]);
            assert((c as u32) as int == hv);
            assert(hv / 16 == a && hv % 16 == b) by (nonlinear_arith)
                requires
                    hv == a * 16 + b,
                    0 <= b < 16,
                    0 <= a,
            ;
            assert(lhex_char((c as u32 / 16) as int) == s[i + 4]);
            assert(lhex_char((c as u32 % 16) as int) == s[i + 5]);
            assert(esc_char(c) =~= seq![s[i], s[i + 1], s[i + 2], s[i + 3], s[i + 4], s[i + 5]]);
            assert(s.subrange(i, j) =~= seq![s[i], s[i + 1], s[i + 2], s[i + 3], s[i + 4], s[i + 5]]
                + s.subrange(i + 6, j));
            assert(s.subrange(i, j) =~= esc(t) + seq!['"']);
        }
    } else {
        lemma_parse_str_sound(s, i + 1);
        let (t2, j2) = parse_str_at(s, i + 1)->Some_0;
        assert(t =~= seq![s[i]] + t2);
        assert(t[0] == s[i]);
        assert(t.skip(1) =~= t2);
        lemma_esc_cons(t);
        assert(esc_char(t[0]) =~= seq![s[i]]);
        assert(s.subrange(i, j) =~= seq![s[i]] + s.subrange(i + 1, j));
        assert(s.subrange(i, j) =~= esc(t) + seq!['"']);
    }
}

/// The run of `s` behind a known prefix and before a known suffix.
proof fn lemma_piece(s: Seq<char>, x: Seq<char>, piece: Seq<char>, y: Seq<char>)
    requires
        s == x + piece + y,
    ensures
        s.subrange(x.len() as int, x.len() + piece.len() as int) == piece,
        s.len() == x.len() + piece.len() + y.len(),
{
    assert(s.subrange(x.len() as int, x.len() + piece.len() as int) =~= piece);
}

/// Reading the canonical text of any claims yields exactly those claims:
/// parsing inverts writing.
#[verifier::rlimit(100)]
pub proof fn lemma_parse_of_json(
    user_id: u32,
    username: Seq<char>,
    flag: Seq<char>,
    exp: i64,
    iat: i64,
)
    ensures
        spec_parse_claims(json_of(user_id, username, flag, exp, iat)) == Some(
            (user_id, username, flag, exp, iat),
        ),
{
    let s = json_of(user_id, username, flag, exp, iat);
    let a0 = lit_head();
    let a1 = dec_digits(user_id as nat);
    let a2 = lit_username();
    let a3 = esc(username) + seq!['"'];
    let a4 = lit_flag();
    let a5 = esc(flag) + seq!['"'];
    let a6 = lit_exp();
    let a7 = dec_int(exp as int);
    let a8 = lit_iat();
    let a9 = dec_int(iat as int);
    let a10 = seq!['}'];
    let x0 = Seq::<char>::empty();
    let x1 = x0 + a0;
    let x2 = x1 + a1;
    let x3 = x2 + a2;
    let x4 = x3 + a3;
    let x5 = x4 + a4;
    let x6 = x5 + a5;
    let x7 = x6 + a6;
    let x8 = x7 + a7;
    let x9 = x8 + a8;
    let x10 = x9 + a9;
    let y10 = Seq::<char>::empty();
    let y9 = a10 + y10;
    let y8 = a9 + y9;
    let y7 = a8 + y8;
    let y6 = a7 + y7;
    let y5 = a6 + y6;
    let y4 = a5 + y5;
    let y3 = a4 + y4;
    let y2 = a3 + y3;
    let y1 = a2 + y2;
    let y0 = a1 + y1;

    assert(s =~= x0 + a0 + y0);
    assert(s =~= x1 + a1 + y1);
    assert(s =~= x2 + a2 + y2);
    assert(s =~= x3 + a3 + y3);
    assert(s =~= x4 + a4 + y4);
    assert(s =~= x5 + a5 + y5);
    assert(s =~= x6 + a6 + y6);
    assert(s =~= x7 + a7 + y7);
    assert(s =~= x8 + a8 + y8);
    assert(s =~= x9 + a9 + y9);
    assert(s =~= x10 + a10 + y10);
    lemma_piece(s, x0, a0, y0);
    lemma_piece(s, x1, a1, y1);
    lemma_piece(s, x2, a2, y2);
    lemma_piece(s, x3, a3, y3);
    lemma_piece(s, x4, a4, y4);
    lemma_piece(s, x5, a5, y5);
    lemma_piece(s, x6, a6, y6);
    lemma_piece(s, x7, a7, y7);
    lemma_piece(s, x8, a8, y8);
    lemma_piece(s, x9, a9, y9);
    lemma_piece(s, x10, a10, y10);

    let p1 = x1.len() as int;
    let p2 = x2.len() as int;
    let p3 = x3.len() as int;
    let p4 = x4.len() as int;
    let p5 = x5.len() as int;
    let p6 = x6.len() as int;
    let p7 = x7.len() as int;
    let p8 = x8.len() as int;
    let p9 = x9.len() as int;
    let p10 = x10.len() as int;

    reveal_strlit("{\"user_id\":");
    reveal_strlit(",\"username\":\"");
    reveal_strlit(",\"flag\":\"");
    reveal_strlit(",\"exp\":");
    reveal_strlit(",\"iat\":");

    // The head literal.
    assert(s.subrange(0, p1) == a0);
    assert(parse_lit_at(s, 0, lit_head()) == Some(p1));

    // The user id, bounded on the right by the comma of the next literal.
    assert(s[p2] == a2[0]) by {
        assert(s.subrange(p2, p2 + a2.len())[0] == s[p2]);
    }
    assert(a2[0] == ',');
    assert(!is_digit(','));
    lemma_parse_nat_complete(s, p1, user_id as nat);
    assert(parse_nat_at(s, p1) == Some((user_id as nat, p2)));

    // The username literal and content.
    assert(parse_lit_at(s, p2, lit_username()) == Some(p3));
    lemma_parse_str_complete(s, p3, username);
    assert(parse_str_at(s, p3) == Some((username, p4)));

    // The flag literal and content.
    assert(parse_lit_at(s, p4, lit_flag()) == Some(p5));
    lemma_parse_str_complete(s, p5, flag);
    assert(parse_str_at(s, p5) == Some((flag, p6)));

    // The expiry, bounded by the comma of the `iat` literal.
    assert(parse_lit_at(s, p6, lit_exp()) == Some(p7));
    assert(s[p8] == a8[0]) by {
        assert(s.subrange(p8, p8 + a8.len())[0] == s[p8]);
    }
    assert(a8[0] == ',');
    lemma_parse_int_complete(s, p7, exp as int);
    assert(parse_int_at(s, p7) == Some((exp as int, p8)));

    // The issue time, bounded by the closing brace.
    assert(parse_lit_at(s, p8, lit_iat()) == Some(p9));
    assert(s[p10] == a10[0]) by {
        assert(s.subrange(p10, p10 + a10.len())[0] == s[p10]);
    }
    assert(a10[0] == '}');
    assert(!is_digit('}'));
    lemma_parse_int_complete(s, p9, iat as int);
    assert(parse_int_at(s, p9) == Some((iat as int, p10)));

    // The closing brace ends the text.
    assert(s.len() == p10 + 1);
    assert(s[p10] == '}');
}

/// Only canonical texts are read: whatever parses is the written text of
/// the claims it parses to.
#[verifier::rlimit(100)]
pub proof fn lemma_parse_claims_sound(s: Seq<char>)
    requires
        spec_parse_claims(s) is Some,
    ensures
        ({
            let (uid, un, fl, exp, iat) = spec_parse_claims(s)->Some_0;
            s == json_of(uid, un, fl, exp, iat)
        }),
{
    let i1 = parse_lit_at(s, 0, lit_head())->Some_0;
    let (uidn, i2) = parse_nat_at(s, i1)->Some_0;
    let i3 = parse_lit_at(s, i2, lit_username())->Some_0;
    let (un, i4) = parse_str_at(s, i3)->Some_0;
    let i5 = parse_lit_at(s, i4, lit_flag())->Some_0;
    let (fl, i6) = parse_str_at(s, i5)->Some_0;
    let i7 = parse_lit_at(s, i6, lit_exp())->Some_0;
    let (expv, i8) = parse_int_at(s, i7)->Some_0;
    let i9 = parse_lit_at(s, i8, lit_iat())->Some_0;
    let (iatv, i10) = parse_int_at(s, i9)->Some_0;

    lemma_parse_nat_sound(s, i1);
    lemma_parse_str_sound(s, i3);
    lemma_parse_str_sound(s, i5);
    lemma_parse_int_sound(s, i7);
    lemma_parse_int_sound(s, i9);

    let uid = uidn as u32;
    assert(uidn <= u32::MAX);
    assert(uid as nat == uidn);
    let expi = expv as i64;
    let iati = iatv as i64;
    assert(i64::MIN <= expv <= i64::MAX && expi as int == expv);
    assert(i64::MIN <= iatv <= i64::MAX && iati as int == iatv);

    assert(s.subrange(0, i1) == lit_head());
    assert(s.subrange(i1, i2) == dec_digits(uid as nat));
    assert(s.subrange(i2, i3) == lit_username());
    assert(s.subrange(i3, i4) == esc(un) + seq!['"']);
    assert(s.subrange(i4, i5) == lit_flag());
    assert(s.subrange(i5, i6) == esc(fl) + seq!['"']);
    assert(s.subrange(i6, i7) == lit_exp());
    assert(s.subrange(i7, i8) == dec_int(expi as int));
    assert(s.subrange(i8, i9) == lit_iat());
    assert(s.subrange(i9, i10) == dec_int(iati as int));
    assert(i10 + 1 == s.len() && s[i10] == '}');
    assert(s.subrange(i10, s.len() as int) =~= seq!['}']);

    assert(s =~= s.subrange(0, i1) + s.subrange(i1, i2) + s.subrange(i2, i3) + s.subrange(i3, i4)
        + s.subrange(i4, i5) + s.subrange(i5, i6) + s.subrange(i6, i7) + s.subrange(i7, i8)
        + s.subrange(i8, i9) + s.subrange(i9, i10) + s.subrange(i10, s.len() as int));
    assert(s =~= json_of(uid, un, fl, expi, iati));
}

// ---------------------------------------------------------------------------
// Building the canonical text
// ---------------------------------------------------------------------------

/// Appends one decimal digit.
fn push_digit(s: &mut String, d: u8)
    requires
        d < 10,
    ensures
        final(s)@ == old(s)@.push(digit_char(d as int)),
{
    let c = (48 + d) as char;
    proof {
        assert(c == digit_char(d as int));
    }
    push_char(s, c);
}

/// Appends one lowercase hexadecimal digit.
fn push_lhex(s: &mut String, d: u8)
    requires
        d < 16,
    ensures
        final(s)@ == old(s)@.push(lhex_char(d as int)),
{
    let c = if d < 10 {
        (48 + d) as char
    } else {
        (97 + d - 10) as char
    };
    proof {
        assert(c == lhex_char(d as int));
    }
    push_char(s, c);
}

/// Appends the decimal text of `n`.
fn push_dec_u64(s: &mut String, n: u64)
    ensures
        final(s)@ == old(s)@ + dec_digits(n as nat),
    decreases n,
{
    if n < 10 {
        push_digit(s, n as u8);
        proof {
            assert(old(s)@ + dec_digits(n as nat) =~= old(s)@.push(digit_char(n as int)));
        }
    } else {
        push_dec_u64(s, n / 10);
        push_digit(s, (n % 10) as u8);
        proof {
            assert(old(s)@ + dec_digits(n as nat) =~= (old(s)@ + dec_digits((n / 10) as nat)).push(
                digit_char((n % 10) as int),
            ));
        }
    }
}

/// Appends the decimal text of `v`.
fn push_dec_i64(s: &mut String, v: i64)
    ensures
        final(s)@ == old(s)@ + dec_int(v as int),
{
    if v >= 0 {
        push_dec_u64(s, v as u64);
    } else {
        push_char(s, '-');
        let m: u64 = (-(v as i128)) as u64;
        proof {
            assert(m as nat == (-(v as int)) as nat);
        }
        push_dec_u64(s, m);
        proof {
            assert(old(s)@ + dec_int(v as int) =~= (old(s)@.push('-')) + dec_digits(
                (-(v as int)) as nat,
            ));
        }
    }
}

/// Appends the JSON-escaped text of `t`.
fn push_escaped(s: &mut String, t: &str)
    ensures
        final(s)@ == old(s)@ + esc(t@),
{
    let n = t.unicode_len();
    let mut i: usize = 0;
    proof {
        assert(t@.subrange(0, 0) =~= Seq::<char>::empty());
        assert(old(s)@ + esc(t@.subrange(0, 0)) =~= old(s)@);
    }
    while i < n
        invariant
            n == t@.len(),
            i <= n,
            s@ == old(s)@ + esc(t@.subrange(0, i as int)),
        decreases n - i,
    {
        let c = t.get_char(i);
        proof {
            assert(t@.subrange(0, i + 1) =~= t@.subrange(0, i as int).push(t@[i as int]));
            lemma_esc_push(t@.subrange(0, i as int), t@[i as int]);
        }
        let cu = c as u32;
        if c == '"' {
            push_char(s, '\\');
            push_char(s, '"');
        } else if c == '\\' {
            push_char(s, '\\');
            push_char(s, '\\');
        } else if cu < 32 {
            push_char(s, '\\');
            push_char(s, 'u');
            push_char(s, '0');
            push_char(s, '0');
            push_lhex(s, (cu / 16) as u8);
            push_lhex(s, (cu % 16) as u8);
        } else {
            push_char(s, c);
        }
        proof {
            assert(s@ =~= old(s)@ + esc(t@.subrange(0, i + 1)));
        }
        i += 1;
    }
    proof {
        assert(t@.subrange(0, n as int) =~= t@);
    }
}

// ---------------------------------------------------------------------------
// Reading the canonical text
// ---------------------------------------------------------------------------

/// Scans to the first non-digit at or after `i`.
fn exec_digits_end(v: &Vec<char>, i: usize) -> (j: usize)
    requires
        i <= v@.len(),
    ensures
        j == digits_end(v@, i as int),
        i <= j <= v@.len(),
{
    proof {
        lemma_digits_end(v@, i as int);
    }
    let mut j = i;
    while j < v.len() && 48 <= (v[j] as u32) && (v[j] as u32) <= 57
        invariant
            i <= j <= v@.len(),
            digits_end(v@, i as int) == digits_end(v@, j as int),
        decreases v@.len() - j,
    {
        proof {
            assert(is_digit(v@[j as int]));
            assert(digits_end(v@, j as int) == digits_end(v@, j + 1 as int));
        }
        j += 1;
    }
    proof {
        assert(digits_end(v@, j as int) == j);
    }
    j
}

/// Reads a natural number at `i` as `parse_nat_at` does, refusing values
/// above `cap` (a larger value is read but reported as absent, exactly as
/// the callers' grammar treats an out-of-range number).
fn exec_parse_nat(v: &Vec<char>, i: usize, cap: u64) -> (r: Option<(u64, usize)>)
    requires
        i <= v@.len(),
    ensures
        match parse_nat_at(v@, i as int) {
            Some((n, j)) => if n <= cap {
                r matches Some(p) && p.0 as nat == n && p.1 == j && i < p.1 <= v@.len()
            } else {
                r is None
            },
            None => r is None,
        },
{
    if i >= v.len() {
        return None;
    }
    let c = v[i];
    let cu = c as u32;
    if !(48 <= cu && cu <= 57) {
        proof {
            assert(!is_digit(v@[i as int]));
        }
        return None;
    }
    proof {
        assert(is_digit(v@[i as int]));
    }
    if cu == 48 {
        proof {
            assert(v@[i as int] == '0') by {
                lemma_char_scalar_roundtrip(c);
            }
        }
        return Some((0, i + 1));
    }
    proof {
        assert(v@[i as int] != '0') by {
            lemma_char_scalar_roundtrip(c);
        }
    }
    let j = exec_digits_end(v, i);
    proof {
        lemma_digits_end(v@, i as int);
        assert(v@.subrange(i as int, i + 1).drop_last() =~= Seq::<char>::empty());
        assert(num_of(Seq::<char>::empty()) == 0);
    }
    let mut acc: u128 = 0;
    let mut over = false;
    let mut k = i;
    while k < j
        invariant
            i <= k <= j <= v@.len(),
            j == digits_end(v@, i as int),
            forall|q: int| i <= q < j ==> is_digit(v@[q]),
            !over ==> acc == num_of(v@.subrange(i as int, k as int)) && acc <= cap,
            over ==> num_of(v@.subrange(i as int, k as int)) > cap,
            cap <= u64::MAX,
        decreases j - k,
    {
        let d = (v[k] as u32 - 48) as u64;
        proof {
            assert(is_digit(v@[k as int]));
            assert(d == digit_val(v@[k as int]));
            let pre = v@.subrange(i as int, k as int);
            let cur = v@.subrange(i as int, k + 1 as int);
            assert(cur.drop_last() =~= pre);
            assert(cur.last() == v@[k as int]);
            assert(num_of(cur) == num_of(pre) * 10 + digit_val(v@[k as int]));
            if over {
                assert(num_of(pre) * 10 + digit_val(v@[k as int]) > cap) by (nonlinear_arith)
                    requires
                        num_of(pre) > cap,
                        cap >= 0,
                        digit_val(v@[k as int]) >= 0,
                ;
            }
        }
        if !over {
            let next = acc * 10 + (d as u128);
            if next > cap as u128 {
                over = true;
            } else {
                acc = next;
            }
        }
        k += 1;
    }
    if over {
        return None;
    }
    proof {
        assert(parse_nat_at(v@, i as int) == Some(
            (num_of(v@.subrange(i as int, j as int)), j as int),
        ));
    }
    Some((acc as u64, j))
}

/// Reads an integer at `i` as `parse_int_at` does, refusing values outside
/// `i64` (exactly as the callers' grammar treats an out-of-range number).
fn exec_parse_int(v: &Vec<char>, i: usize) -> (r: Option<(i64, usize)>)
    requires
        i <= v@.len(),
    ensures
        match parse_int_at(v@, i as int) {
            Some((n, j)) => if i64::MIN <= n <= i64::MAX {
                r matches Some(p) && p.0 as int == n && p.1 == j && i < p.1 <= v@.len()
            } else {
                r is None
            },
            None => r is None,
        },
{
    if i < v.len() && v[i] == '-' {
        let m = match exec_parse_nat(v, i + 1, 9223372036854775808u64) {
            Some(p) => p,
            None => {
                return None;
            },
        };
        if m.0 == 0 {
            return None;
        }
        Some(((-(m.0 as i128)) as i64, m.1))
    } else {
        proof {
            if i < v@.len() {
                assert(v@[i as int] != '-');
            }
        }
        let m = match exec_parse_nat(v, i, 9223372036854775807u64) {
            Some(p) => p,
            None => {
                return None;
            },
        };
        Some((m.0 as i64, m.1))
    }
}

/// Matches the fixed text `lit` at `i`.
fn exec_parse_lit(v: &Vec<char>, i: usize, lit: &str) -> (r: Option<usize>)
    requires
        i <= v@.len(),
    ensures
        match parse_lit_at(v@, i as int, lit@) {
            Some(j) => r matches Some(u) && u == j && i <= u <= v@.len(),
            None => r is None,
        },
{
    let n = lit.unicode_len();
    if n > v.len() - i {
        return None;
    }
    let mut k: usize = 0;
    while k < n
        invariant
            n == lit@.len(),
            i + n <= v@.len(),
            i + n <= usize::MAX,
            k <= n,
            forall|q: int| 0 <= q < k ==> v@[i + q] == lit@[q],
        decreases n - k,
    {
        if v[i + k] != lit.get_char(k) {
            proof {
                assert(v@.subrange(i as int, i + n)[k as int] == v@[i + k]);
                assert(v@.subrange(i as int, i + n) != lit@);
            }
            return None;
        }
        k += 1;
    }
    proof {
        assert forall|q: int| 0 <= q < n implies v@.subrange(i as int, i + n)[q] == lit@[q] by {
            assert(v@[i + q] == lit@[q]);
        }
        assert(v@.subrange(i as int, i + n) =~= lit@);
    }
    Some(i + n)
}

/// Reads a JSON string body at `i` as `parse_str_at` does: the unescaped
/// content and the position after the closing quote.
fn exec_parse_str(v: &Vec<char>, i: usize) -> (r: Option<(Vec<char>, usize)>)
    requires
        i <= v@.len(),
    ensures
        match parse_str_at(v@, i as int) {
            Some((t, j)) => r matches Some(p) && p.0@ == t && p.1 == j && i < p.1 <= v@.len(),
            None => r is None,
        },
{
    let mut content: Vec<char> = Vec::new();
    let mut cur = i;
    proof {
        assert(Seq::<char>::empty() + parse_str_at(v@, i as int)->Some_0.0 =~= parse_str_at(
            v@,
            i as int,
        )->Some_0.0);
        lemma_parse_str_bounds(v@, i as int);
    }
    while cur < v.len()
        invariant
            i <= cur <= v@.len(),
            match parse_str_at(v@, cur as int) {
                Some((t2, j2)) => parse_str_at(v@, i as int) == Some((content@ + t2, j2)) && cur
                    < j2 <= v@.len(),
                None => parse_str_at(v@, i as int) is None,
            },
        decreases v@.len() - cur,
    {
        let ghost content_old = content@;
        let c = v[cur];
        if c == '"' {
            proof {
                assert(parse_str_at(v@, cur as int) == Some((Seq::<char>::empty(), cur + 1 as int)));
                assert(content@ + Seq::<char>::empty() =~= content@);
            }
            return Some((content, cur + 1));
        }
        if c == '\\' {
            if v.len() - cur > 1 && (v[cur + 1] == '"' || v[cur + 1] == '\\') {
                let e = v[cur + 1];
                content.push(e);
                proof {
                    lemma_parse_str_bounds(v@, cur + 2);
                    match parse_str_at(v@, cur + 2) {
                        Some((t3, j3)) => {
                            assert(parse_str_at(v@, cur as int) == Some((seq![e] + t3, j3)));
                            assert(content@ + t3 =~= content_old + (seq![e] + t3));
                        },
                        None => {
                            assert(parse_str_at(v@, cur as int) is None);
                        },
                    }
                }
                cur = cur + 2;
            } else if v.len() - cur > 5 && v[cur + 1] == 'u' && v[cur + 2] == '0' && v[cur + 3]
                == '0' && is_lhex_exec(v[cur + 4]) && is_lhex_exec(v[cur + 5]) && lhex_val_exec(
                v[cur + 4],
            ) * 16 + lhex_val_exec(v[cur + 5]) < 32 {
                let hv: u32 = lhex_val_exec(v[cur + 4]) * 16 + lhex_val_exec(v[cur + 5]);
                let ch = (hv as u8) as char;
                proof {
                    assert(ch as u32 == hv);
                    assert(ch == ((lhex_val(v@[cur + 4]) * 16 + lhex_val(v@[cur + 5])) as char));
                }
                content.push(ch);
                proof {
                    lemma_parse_str_bounds(v@, cur + 6);
                    match parse_str_at(v@, cur + 6) {
                        Some((t3, j3)) => {
                            assert(parse_str_at(v@, cur as int) == Some((seq![ch] + t3, j3)));
                            assert(content@ + t3 =~= content_old + (seq![ch] + t3));
                        },
                        None => {
                            assert(parse_str_at(v@, cur as int) is None);
                        },
                    }
                }
                cur = cur + 6;
            } else {
                proof {
                    assert(parse_str_at(v@, cur as int) is None);
                }
                return None;
            }
        } else if (c as u32) < 32 {
            proof {
                assert(parse_str_at(v@, cur as int) is None);
            }
            return None;
        } else {
            content.push(c);
            proof {
                lemma_parse_str_bounds(v@, cur + 1);
                match parse_str_at(v@, cur + 1) {
                    Some((t3, j3)) => {
                        assert(parse_str_at(v@, cur as int) == Some((seq![c] + t3, j3)));
                        assert(content@ + t3 =~= content_old + (seq![c] + t3));
                    },
                    None => {
                        assert(parse_str_at(v@, cur as int) is None);
                    },
                }
            }
            cur = cur + 1;
        }
    }
    None
}

/// A successful string read moves forward and stays in range.
proof fn lemma_parse_str_bounds(s: Seq<char>, i: int)
    ensures
        parse_str_at(s, i) matches Some((t, j)) ==> i < j <= s.len(),
    decreases s.len() - i,
{
    if 0 <= i < s.len() {
        if s[i] == '"' {
        } else if s[i] == '\\' {
            if i + 1 < s.len() && (s[i + 1] == '"' || s[i + 1] == '\\') {
                lemma_parse_str_bounds(s, i + 2);
            } else if i + 5 < s.len() {
                lemma_parse_str_bounds(s, i + 6);
            }
        } else {
            lemma_parse_str_bounds(s, i + 1);
        }
    }
}

/// Whether `c` is a lowercase hexadecimal digit.
fn is_lhex_exec(c: char) -> (r: bool)
    ensures
        r == is_lhex(c),
{
    let cu = c as u32;
    (48 <= cu && cu <= 57) || (97 <= cu && cu <= 102)
}

/// The value of a lowercase hexadecimal digit.
fn lhex_val_exec(c: char) -> (r: u32)
    requires
        is_lhex(c),
    ensures
        r as nat == lhex_val(c),
        r < 16,
{
    let cu = c as u32;
    if 48 <= cu && cu <= 57 {
        cu - 48
    } else {
        cu - 97 + 10
    }
}

/// Reads a whole canonical claims text: `Some` exactly when `s` is the
/// canonical text of some claims, and then those claims.
pub fn parse_claims_json(s: &str) -> (r: Option<(u32, String, String, i64, i64)>)
    ensures
        match spec_parse_claims(s@) {
            Some(c) => r matches Some(p) && p.0 == c.0 && p.1@ == c.1 && p.2@ == c.2 && p.3 == c.3
                && p.4 == c.4,
            None => r is None,
        },
{
    let v = str_to_chars(s);
    let i1 = match exec_parse_lit(&v, 0, "{\"user_id\":") {
        Some(j) => j,
        None => {
            return None;
        },
    };
    let (uid, i2) = match exec_parse_nat(&v, i1, 0xffff_ffffu64) {
        Some(p) => p,
        None => {
            return None;
        },
    };
    let i3 = match exec_parse_lit(&v, i2, ",\"username\":\"") {
        Some(j) => j,
        None => {
            return None;
        },
    };
    let (un, i4) = match exec_parse_str(&v, i3) {
        Some(p) => p,
        None => {
            return None;
        },
    };
    let i5 = match exec_parse_lit(&v, i4, ",\"flag\":\"") {
        Some(j) => j,
        None => {
            return None;
        },
    };
    let (fl, i6) = match exec_parse_str(&v, i5) {
        Some(p) => p,
        None => {
            return None;
        },
    };
    let i7 = match exec_parse_lit(&v, i6, ",\"exp\":") {
        Some(j) => j,
        None => {
            return None;
        },
    };
    let (exp, i8) = match exec_parse_int(&v, i7) {
        Some(p) => p,
        None => {
            return None;
        },
    };
    let i9 = match exec_parse_lit(&v, i8, ",\"iat\":") {
        Some(j) => j,
        None => {
            return None;
        },
    };
    let (iat, i10) = match exec_parse_int(&v, i9) {
        Some(p) => p,
        None => {
            return None;
        },
    };
    if !(i10 < v.len() && i10 + 1 == v.len() && v[i10] == '}') {
        return None;
    }
    let un_s = chars_to_string(&un);
    let fl_s = chars_to_string(&fl);
    Some((uid as u32, un_s, fl_s, exp, iat))
}

/// Writes the canonical claims text of the given claims.
pub fn build_claims_json(user_id: u32, username: &str, flag: &str, exp: i64, iat: i64) -> (r:
    String)
    ensures
        r@ == json_of(user_id, username@, flag@, exp, iat),
{
    let mut s = String::new();
    s.append("{\"user_id\":");
    push_dec_u64(&mut s, user_id as u64);
    s.append(",\"username\":\"");
    push_escaped(&mut s, username);
    push_char(&mut s, '"');
    s.append(",\"flag\":\"");
    push_escaped(&mut s, flag);
    push_char(&mut s, '"');
    s.append(",\"exp\":");
    push_dec_i64(&mut s, exp);
    s.append(",\"iat\":");
    push_dec_i64(&mut s, iat);
    push_char(&mut s, '}');
    proof {
        assert(s@ =~= json_of(user_id, username@, flag@, exp, iat));
    }
    s
}

} // verus!
