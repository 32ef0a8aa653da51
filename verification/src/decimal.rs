//! Decimal text of integers, as `format!("{}", n)` writes it and as
//! `str::parse::<i32>` reads it.

use vstd::prelude::*;
use crate::text::push_char;

verus! {

/// The ASCII digit for a value below ten.
pub open spec fn digit_char(d: nat) -> char {
    (48 + d) as char
}

/// The decimal digits of `n`, most significant first, with no leading zero.
pub open spec fn decimal(n: nat) -> Seq<char>
    decreases n,
{
    if n < 10 {
        seq![digit_char(n)]
    } else {
        decimal(n / 10).push(digit_char(n % 10))
    }
}

/// The decimal text of a signed integer: a minus sign before negative values.
pub open spec fn signed_decimal(x: int) -> Seq<char> {
    if x < 0 {
        seq!['-'] + decimal((-x) as nat)
    } else {
        decimal(x as nat)
    }
}

fn digit(d: u64) -> (c: char)
    requires
        d < 10,
    ensures
        c == digit_char(d as nat),
{
    ((d as u8) + 48u8) as char
}

/// Appends the decimal digits of `n` to `out`.
pub fn push_decimal(out: &mut String, n: u64)
    ensures
        final(out)@ == old(out)@ + decimal(n as nat),
    decreases n,
{
    if n >= 10 {
        push_decimal(out, n / 10);
    }
    push_char(out, digit(n % 10));
}

/// The decimal text of an unsigned integer.
pub fn format_u64(n: u64) -> (s: String)
    ensures
        s@ == decimal(n as nat),
        s@.len() >= 1,
        forall|i: int| 0 <= i < s@.len() ==> '0' <= #[trigger] s@[i] <= '9',
        (s@[0] == '0') == (n == 0),
        digits_value(s@) == n,
{
    proof {
        law_decimal_canonical(n as nat);
        if n == 0 {
            assert(decimal(0)[0] == digit_char(0));
        }
    }
    let mut s = String::new();
    push_decimal(&mut s, n);
    s
}

/// Appends the decimal text of a signed integer to `out`.
pub fn push_signed_decimal(out: &mut String, x: i64)
    ensures
        final(out)@ == old(out)@ + signed_decimal(x as int),
{
    if x < 0 {
        push_char(out, '-');
        let m: u64 = if x == i64::MIN { 9223372036854775808u64 } else { (-x) as u64 };
        push_decimal(out, m);
    } else {
        push_decimal(out, x as u64);
    }
}

/// The decimal text of an `i32`.
pub fn format_i32(x: i32) -> (s: String)
    ensures
        s@ == signed_decimal(x as int),
{
    let mut s = String::new();
    push_signed_decimal(&mut s, x as i64);
    s
}


/// An ASCII decimal digit.
pub open spec fn is_digit(c: char) -> bool {
    '0' <= c && c <= '9'
}

/// Every character is an ASCII decimal digit.
pub open spec fn all_digits(ds: Seq<char>) -> bool {
    forall|i: int| 0 <= i < ds.len() ==> is_digit(#[trigger] ds[i])
}

/// The number that a run of decimal digits denotes.
pub open spec fn digits_value(ds: Seq<char>) -> int
    decreases ds.len(),
{
    if ds.len() == 0 {
        0
    } else {
        10 * digits_value(ds.drop_last()) + (ds.last() as int - 48)
    }
}

/// Whether the text starts with a sign character.
pub open spec fn has_sign(s: Seq<char>) -> bool {
    s.len() > 0 && (s[0] == '-' || s[0] == '+')
}

/// What `str::parse::<i32>` gives for a text: an optional `+` or `-`, then one
/// or more ASCII digits and nothing else, whose value fits in an `i32`.
pub open spec fn parse_i32_spec(s: Seq<char>) -> Option<i32> {
    let body = if has_sign(s) { s.drop_first() } else { s };
    let v = if s.len() > 0 && s[0] == '-' { -digits_value(body) } else { digits_value(body) };
    if body.len() > 0 && all_digits(body) && i32::MIN <= v <= i32::MAX {
        Some(v as i32)
    } else {
        None
    }
}

proof fn lemma_digits_value_nonneg(ds: Seq<char>)
    requires
        all_digits(ds),
    ensures
        digits_value(ds) >= 0,
    decreases ds.len(),
{
    if ds.len() > 0 {
        assert(is_digit(ds[ds.len() - 1]));
        lemma_digits_value_nonneg(ds.drop_last());
    }
}

/// Reads a decimal `i32` as `str::parse::<i32>` does; `None` where it fails.
pub fn parse_i32(s: &str) -> (r: Option<i32>)
    ensures
        r == parse_i32_spec(s@),
{
    let cs = crate::text::chars_of(s);
    let n = cs.len();
    let neg = n > 0 && cs[0] == '-';
    let start: usize = if n > 0 && (cs[0] == '-' || cs[0] == '+') { 1 } else { 0 };
    let ghost body = if has_sign(s@) { s@.drop_first() } else { s@ };
    assert(body =~= s@.subrange(start as int, n as int));
    let mut acc: i64 = 0;
    let mut big = false;
    let mut i = start;
    while i < n
        invariant
            cs@ == s@,
            n == cs@.len(),
            start <= i <= n,
            body == s@.subrange(start as int, n as int),
            body == (if has_sign(s@) { s@.drop_first() } else { s@ }),
            all_digits(body.subrange(0, i - start)),
            !big ==> acc == digits_value(body.subrange(0, i - start)),
            !big ==> 0 <= acc <= 2147483648,
            big ==> digits_value(body.subrange(0, i - start)) > 2147483648,
        decreases n - i,
    {
        let c = cs[i];
        if !('0' <= c && c <= '9') {
            assert(body[i - start] == c);
            assert(!all_digits(body));
            return None;
        }
        let ghost pre = body.subrange(0, i - start);
        let ghost post = body.subrange(0, i + 1 - start);
        assert(post.drop_last() =~= pre);
        assert(post.last() == c);
        assert(all_digits(post)) by {
            assert forall|k: int| 0 <= k < post.len() implies is_digit(#[trigger] post[k]) by {
                if k < pre.len() {
                    assert(post[k] == pre[k]);
                }
            }
        }
        proof {
            lemma_digits_value_nonneg(pre);
        }
        if !big {
            acc = acc * 10 + ((c as u32 - 48) as i64);
            if acc > 2147483648 {
                big = true;
            }
        }
        i = i + 1;
    }
    assert(body.subrange(0, n - start) =~= body);
    if n == start || big {
        return None;
    }
    if neg {
        Some((-acc) as i32)
    } else if acc > 2147483647 {
        None
    } else {
        Some(acc as i32)
    }
}

proof fn lemma_decimal(n: nat)
    ensures
        decimal(n).len() > 0,
        all_digits(decimal(n)),
        digits_value(decimal(n)) == n,
    decreases n,
{
    let d = decimal(n);
    if n < 10 {
        assert(d.drop_last() =~= Seq::<char>::empty());
        assert(digit_char(n) as int == 48 + n);
        assert(digits_value(d.drop_last()) == 0);
        assert(d.last() == digit_char(n));
    } else {
        lemma_decimal(n / 10);
        assert(d.drop_last() =~= decimal(n / 10));
        assert(digit_char(n % 10) as int == 48 + n % 10);
        assert(d.last() == digit_char(n % 10));
        assert(n == 10 * (n / 10) + n % 10);
        assert forall|k: int| 0 <= k < d.len() implies is_digit(#[trigger] d[k]) by {
            if k < d.len() - 1 {
                assert(d[k] == decimal(n / 10)[k]);
            }
        }
    }
}

/// The number a digit string denotes is built digit by digit in base ten:
/// the empty string is 0, and one more digit `c` at the end makes ten times
/// the number plus the digit's value.
pub proof fn law_digits_value_step(ds: Seq<char>, c: char)
    ensures
        digits_value(Seq::<char>::empty()) == 0,
        digits_value(ds.push(c)) == 10 * digits_value(ds) + (c as int - '0' as int),
{
    assert(ds.push(c).drop_last() =~= ds);
}

proof fn lemma_decimal_first(n: nat)
    ensures
        decimal(n)[0] == '0' ==> n == 0 && decimal(n).len() == 1,
    decreases n,
{
    if n >= 10 {
        lemma_decimal_first(n / 10);
        lemma_decimal(n / 10);
        assert(decimal(n)[0] == decimal(n / 10)[0]);
    } else {
        assert(digit_char(n) as int == 48 + n);
    }
}

/// The decimal text of a number is its shortest writing in ASCII digits:
/// at least one digit, every character `0` to `9`, no leading zero (the
/// text starts with `0` only for zero itself, and is then just "0"), and
/// read back in base ten it is the number.
pub proof fn law_decimal_canonical(n: nat)
    ensures
        decimal(n).len() >= 1,
        forall|i: int| 0 <= i < decimal(n).len() ==> '0' <= #[trigger] decimal(n)[i] <= '9',
        decimal(n)[0] == '0' ==> n == 0 && decimal(n).len() == 1,
        n >= 1 ==> decimal(n)[0] != '0',
        digits_value(decimal(n)) == n,
{
    lemma_decimal(n);
    lemma_decimal_first(n);
    assert forall|i: int| 0 <= i < decimal(n).len() implies '0' <= #[trigger] decimal(n)[i] <= '9' by {
        assert(is_digit(decimal(n)[i]));
    }
}

proof fn lemma_digits_value_positive(ds: Seq<char>)
    requires
        all_digits(ds),
        ds.len() >= 1,
        ds[0] != '0',
    ensures
        digits_value(ds) >= 1,
    decreases ds.len(),
{
    if ds.len() == 1 {
        assert(ds.drop_last() =~= Seq::<char>::empty());
        assert(digits_value(ds.drop_last()) == 0);
        assert(ds.last() == ds[0]);
        assert(is_digit(ds[0]));
    } else {
        let init = ds.drop_last();
        assert(init[0] == ds[0]);
        assert forall|k: int| 0 <= k < init.len() implies is_digit(#[trigger] init[k]) by {
            assert(init[k] == ds[k]);
        }
        lemma_digits_value_positive(init);
        assert(is_digit(ds[ds.len() - 1]));
    }
}

/// Any digit string without a leading zero that denotes `n` is the decimal
/// text of `n`: there is one such writing of each number.
pub proof fn law_decimal_unique(ds: Seq<char>, n: nat)
    requires
        all_digits(ds),
        ds.len() >= 1,
        ds[0] == '0' ==> ds.len() == 1,
        digits_value(ds) == n,
    ensures
        ds == decimal(n),
    decreases ds.len(),
{
    if ds.len() == 1 {
        assert(ds.drop_last() =~= Seq::<char>::empty());
        assert(digits_value(ds.drop_last()) == 0);
        assert(ds.last() == ds[0]);
        assert(is_digit(ds[0]));
        assert(n < 10);
        assert(ds[0] as int == 48 + n);
        assert(digit_char(n) == ds[0]);
        assert(ds =~= decimal(n));
    } else {
        let init = ds.drop_last();
        assert(init[0] == ds[0]);
        assert forall|k: int| 0 <= k < init.len() implies is_digit(#[trigger] init[k]) by {
            assert(init[k] == ds[k]);
        }
        lemma_digits_value_positive(init);
        lemma_digits_value_nonneg(init);
        let m = digits_value(init) as nat;
        let c = ds.last();
        assert(is_digit(ds[ds.len() - 1]));
        let d = (c as int - 48) as nat;
        assert(n == 10 * m + d);
        assert(n / 10 == m && n % 10 == d);
        law_decimal_unique(init, m);
        assert(digit_char(d) == c);
        assert(ds =~= init.push(c));
    }
}

/// What reading an `i32` accepts: one or more ASCII digits, optionally
/// after a `+` or a `-`, whose value (negated after `-`) fits in an `i32`;
/// the result is that value.
pub proof fn law_parse_i32_accepts(ds: Seq<char>)
    requires
        ds.len() >= 1,
        forall|i: int| 0 <= i < ds.len() ==> '0' <= #[trigger] ds[i] <= '9',
    ensures
        digits_value(ds) <= i32::MAX ==> parse_i32_spec(ds) == Some(digits_value(ds) as i32),
        digits_value(ds) <= i32::MAX ==> parse_i32_spec(seq!['+'] + ds) == Some(digits_value(ds) as i32),
        digits_value(ds) <= 2147483648 ==> parse_i32_spec(seq!['-'] + ds) == Some((-digits_value(ds)) as i32),
        digits_value(ds) > i32::MAX ==> parse_i32_spec(ds) is None && parse_i32_spec(seq!['+'] + ds) is None,
        digits_value(ds) > 2147483648 ==> parse_i32_spec(seq!['-'] + ds) is None,
{
    assert(all_digits(ds)) by {
        assert forall|i: int| 0 <= i < ds.len() implies is_digit(#[trigger] ds[i]) by {
            assert('0' <= ds[i] <= '9');
        }
    }
    lemma_digits_value_nonneg(ds);
    assert((seq!['+'] + ds).drop_first() =~= ds);
    assert((seq!['-'] + ds).drop_first() =~= ds);
    assert('0' <= ds[0] <= '9');
}

/// What reading an `i32` rejects: the empty text, a lone sign, and any text
/// with a character other than an ASCII digit after its first character,
/// or whose first character is neither a digit nor a sign.
pub proof fn law_parse_i32_rejects(s: Seq<char>)
    ensures
        parse_i32_spec(Seq::<char>::empty()) is None,
        parse_i32_spec(seq!['+']) is None,
        parse_i32_spec(seq!['-']) is None,
        (exists|i: int| 1 <= i < s.len() && !('0' <= #[trigger] s[i] <= '9')) ==> parse_i32_spec(s) is None,
        s.len() >= 1 && !('0' <= s[0] <= '9') && s[0] != '+' && s[0] != '-' ==> parse_i32_spec(s) is None,
{
    assert(seq!['+'].drop_first() =~= Seq::<char>::empty());
    assert(seq!['-'].drop_first() =~= Seq::<char>::empty());
    if exists|i: int| 1 <= i < s.len() && !('0' <= #[trigger] s[i] <= '9') {
        let i = choose|i: int| 1 <= i < s.len() && !('0' <= #[trigger] s[i] <= '9');
        if has_sign(s) {
            assert(s.drop_first()[i - 1] == s[i]);
            assert(!is_digit(s.drop_first()[i - 1]));
        } else {
            assert(!is_digit(s[i]));
        }
    }
    if s.len() >= 1 && !('0' <= s[0] <= '9') && s[0] != '+' && s[0] != '-' {
        assert(!is_digit(s[0]));
    }
}

/// Reading back the decimal text of any `i32` gives that same `i32`.
pub proof fn law_parse_format_i32(x: i32)
    ensures
        parse_i32_spec(signed_decimal(x as int)) == Some(x),
{
    if x < 0 {
        let m = (-x) as nat;
        lemma_decimal(m);
        let s = signed_decimal(x as int);
        assert(s.drop_first() =~= decimal(m));
        assert(s[0] == '-');
    } else {
        lemma_decimal(x as nat);
        let s = decimal(x as nat);
        assert(is_digit(s[0]));
    }
}

} // verus!
