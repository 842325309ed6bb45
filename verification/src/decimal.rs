//! Decimal digit strings: the canonical base-10 rendering of a number and
//! the value of a digit string, with the executable conversions the version
//! parser and renderer build on.

use vstd::prelude::*;

verus! {

/// The character for a single decimal digit.
pub open spec fn digit_char(d: int) -> char
    recommends
        0 <= d < 10,
{
    if d == 0 {
        '0'
    } else if d == 1 {
        '1'
    } else if d == 2 {
        '2'
    } else if d == 3 {
        '3'
    } else if d == 4 {
        '4'
    } else if d == 5 {
        '5'
    } else if d == 6 {
        '6'
    } else if d == 7 {
        '7'
    } else if d == 8 {
        '8'
    } else {
        '9'
    }
}

/// Whether `c` is a decimal digit.
pub open spec fn is_digit_char(c: char) -> bool {
    '0' as u32 <= c as u32 && c as u32 <= '9' as u32
}

/// The numeric value of a digit character.
pub open spec fn digit_val(c: char) -> int
    recommends
        is_digit_char(c),
{
    c as u32 - '0' as u32
}

/// The canonical decimal rendering of `n`: most significant digit first,
/// no leading zeros, `"0"` for zero.
pub open spec fn spec_dec(n: nat) -> Seq<char>
    decreases n,
{
    if n < 10 {
        seq![digit_char(n as int)]
    } else {
        spec_dec(n / 10).push(digit_char((n % 10) as int))
    }
}

/// The value of a digit string, most significant digit first.
pub open spec fn digits_val(s: Seq<char>) -> int
    decreases s.len(),
{
    if s.len() == 0 {
        0
    } else {
        digits_val(s.drop_last()) * 10 + digit_val(s.last())
    }
}

/// Ten to the power `e`.
pub open spec fn pow10(e: nat) -> int
    decreases e,
{
    if e == 0 {
        1
    } else {
        10 * pow10((e - 1) as nat)
    }
}

pub proof fn lemma_pow10_monotone(a: nat, b: nat)
    requires
        a <= b,
    ensures
        pow10(a) <= pow10(b),
    decreases b,
{
    if a < b {
        lemma_pow10_monotone(a, (b - 1) as nat);
        assert(pow10((b - 1) as nat) >= 1) by {
            lemma_pow10_monotone(0, (b - 1) as nat);
        }
    }
}

/// Nineteen digits stay below `10^19`, which a `u64` can hold.
pub proof fn lemma_pow10_19()
    ensures
        pow10(19) == 10000000000000000000,
{
    reveal_with_fuel(pow10, 20);
}

/// A digit string of `k` digits denotes a value below `10^k`.
pub proof fn lemma_digits_val_bound(s: Seq<char>)
    requires
        forall|i: int| 0 <= i < s.len() ==> is_digit_char(#[trigger] s[i]),
    ensures
        0 <= digits_val(s) < pow10(s.len() as nat),
    decreases s.len(),
{
    if s.len() > 0 {
        lemma_digits_val_bound(s.drop_last());
        assert(is_digit_char(s.last()));
        assert(digit_val(s.last()) <= 9);
        assert(digits_val(s.drop_last()) <= pow10((s.len() - 1) as nat) - 1);
        assert(digits_val(s.drop_last()) * 10 <= (pow10((s.len() - 1) as nat) - 1) * 10)
            by (nonlinear_arith)
            requires
                digits_val(s.drop_last()) <= pow10((s.len() - 1) as nat) - 1,
                digits_val(s.drop_last()) >= 0,
        ;
    }
}

/// The rendering of `n` consists of digits only.
pub proof fn lemma_spec_dec_digits(n: nat)
    ensures
        spec_dec(n).len() >= 1,
        forall|i: int| 0 <= i < spec_dec(n).len() ==> is_digit_char(#[trigger] spec_dec(n)[i]),
    decreases n,
{
    if n >= 10 {
        lemma_spec_dec_digits(n / 10);
    }
}

/// Reading back the canonical rendering gives the number itself.
pub proof fn lemma_digits_val_spec_dec(n: nat)
    ensures
        digits_val(spec_dec(n)) == n,
    decreases n,
{
    if n < 10 {
        assert(spec_dec(n) == seq![digit_char(n as int)]);
        assert(spec_dec(n).drop_last() =~= Seq::<char>::empty());
        assert(digits_val(Seq::<char>::empty()) == 0);
        assert(digit_val(digit_char(n as int)) == n);
    } else {
        lemma_digits_val_spec_dec(n / 10);
        assert(spec_dec(n).drop_last() =~= spec_dec(n / 10));
        assert(digit_val(digit_char((n % 10) as int)) == n % 10);
    }
}

/// A number below `10^k` renders in at most `k` digits.
pub proof fn lemma_spec_dec_len_bound(n: nat, k: nat)
    requires
        k >= 1,
        n < pow10(k),
    ensures
        spec_dec(n).len() <= k,
    decreases n,
{
    if n >= 10 {
        assert(k >= 2) by {
            if k == 1 {
                assert(pow10(1) == 10);
            }
        }
        assert(n / 10 < pow10((k - 1) as nat)) by (nonlinear_arith)
            requires
                n < pow10(k),
                pow10(k) == 10 * pow10((k - 1) as nat),
                n >= 10,
        ;
        lemma_spec_dec_len_bound(n / 10, (k - 1) as nat);
    }
}

/// The canonical rendering never starts with a superfluous zero.
pub proof fn lemma_spec_dec_no_leading_zero(n: nat)
    ensures
        spec_dec(n).len() > 1 ==> spec_dec(n)[0] != '0',
    decreases n,
{
    if n >= 10 {
        lemma_spec_dec_no_leading_zero(n / 10);
        assert(spec_dec(n)[0] == spec_dec(n / 10)[0]);
        if spec_dec(n / 10).len() == 1 {
            if n / 10 >= 10 {
                lemma_spec_dec_digits((n / 10) / 10);
                assert(spec_dec(n / 10).len() >= 2);
            }
            assert(n / 10 >= 1);
            assert(spec_dec(n / 10) == seq![digit_char((n / 10) as int)]);
            assert(digit_char((n / 10) as int) != '0');
        }
    }
}

/// A digit character is determined by its value.
proof fn lemma_digit_char_roundtrip(c: char)
    requires
        is_digit_char(c),
    ensures
        digit_char(digit_val(c)) == c,
        c != '0' ==> digit_val(c) >= 1,
{
    let u = c as u32;
    vstd::utf8::char_u32_cast(c, u);
    if u == 48 {
        vstd::utf8::char_u32_cast('0', '0' as u32);
    } else if u == 49 {
        vstd::utf8::char_u32_cast('1', '1' as u32);
    } else if u == 50 {
        vstd::utf8::char_u32_cast('2', '2' as u32);
    } else if u == 51 {
        vstd::utf8::char_u32_cast('3', '3' as u32);
    } else if u == 52 {
        vstd::utf8::char_u32_cast('4', '4' as u32);
    } else if u == 53 {
        vstd::utf8::char_u32_cast('5', '5' as u32);
    } else if u == 54 {
        vstd::utf8::char_u32_cast('6', '6' as u32);
    } else if u == 55 {
        vstd::utf8::char_u32_cast('7', '7' as u32);
    } else if u == 56 {
        vstd::utf8::char_u32_cast('8', '8' as u32);
    } else {
        vstd::utf8::char_u32_cast('9', '9' as u32);
    }
}

/// A digit string that does not start with zero denotes at least one.
pub proof fn lemma_digits_val_positive(s: Seq<char>)
    requires
        s.len() >= 1,
        forall|i: int| 0 <= i < s.len() ==> is_digit_char(#[trigger] s[i]),
        s[0] != '0',
    ensures
        digits_val(s) >= 1,
    decreases s.len(),
{
    if s.len() == 1 {
        assert(is_digit_char(s[0]));
        lemma_digit_char_roundtrip(s[0]);
        assert(s.last() == s[0]);
        assert(s.drop_last() =~= Seq::<char>::empty());
        assert(digits_val(Seq::<char>::empty()) == 0);
    } else {
        assert(s.drop_last()[0] == s[0]);
        lemma_digits_val_positive(s.drop_last());
        assert(is_digit_char(s.last()));
        assert(digit_val(s.last()) >= 0);
        assert(digits_val(s.drop_last()) * 10 >= 10) by (nonlinear_arith)
            requires
                digits_val(s.drop_last()) >= 1,
        ;
    }
}

/// A digit string with no leading zero is the canonical rendering of its
/// own value.
pub proof fn lemma_spec_dec_inverse(s: Seq<char>)
    requires
        s.len() >= 1,
        forall|i: int| 0 <= i < s.len() ==> is_digit_char(#[trigger] s[i]),
        s.len() > 1 ==> s[0] != '0',
    ensures
        digits_val(s) >= 0,
        spec_dec(digits_val(s) as nat) == s,
    decreases s.len(),
{
    lemma_digits_val_bound(s);
    if s.len() == 1 {
        assert(s.drop_last() =~= Seq::<char>::empty());
        assert(digits_val(Seq::<char>::empty()) == 0);
        assert(s.last() == s[0]);
        assert(digits_val(s) == digit_val(s[0]));
        lemma_digit_char_roundtrip(s[0]);
        assert(spec_dec(digits_val(s) as nat) =~= s);
    } else {
        let t = s.drop_last();
        assert(t[0] == s[0]);
        lemma_spec_dec_inverse(t);
        lemma_digits_val_positive(t);
        let val = digits_val(s);
        assert(val == digits_val(t) * 10 + digit_val(s.last()));
        assert(val >= 10) by {
            assert(digits_val(t) * 10 >= 10) by (nonlinear_arith)
                requires
                    digits_val(t) >= 1,
            ;
        }
        assert(val / 10 == digits_val(t) && val % 10 == digit_val(s.last())) by (nonlinear_arith)
            requires
                val == digits_val(t) * 10 + digit_val(s.last()),
                0 <= digit_val(s.last()) < 10,
        ;
        assert(is_digit_char(s.last()));
        lemma_digit_char_roundtrip(s.last());
        assert(spec_dec(val as nat) == spec_dec(digits_val(t) as nat).push(s.last()));
        assert(t.push(s.last()) =~= s);
    }
}

/// A one-character string slice for a single decimal digit.
fn digit_str(d: u64) -> (r: &'static str)
    requires
        d < 10,
    ensures
        r@ =~= seq![digit_char(d as int)],
{
    proof {
        reveal_strlit("0");
        reveal_strlit("1");
        reveal_strlit("2");
        reveal_strlit("3");
        reveal_strlit("4");
        reveal_strlit("5");
        reveal_strlit("6");
        reveal_strlit("7");
        reveal_strlit("8");
        reveal_strlit("9");
    }
    if d == 0 {
        "0"
    } else if d == 1 {
        "1"
    } else if d == 2 {
        "2"
    } else if d == 3 {
        "3"
    } else if d == 4 {
        "4"
    } else if d == 5 {
        "5"
    } else if d == 6 {
        "6"
    } else if d == 7 {
        "7"
    } else if d == 8 {
        "8"
    } else {
        "9"
    }
}

/// Render `n` in canonical decimal.
pub fn u64_to_string(n: u64) -> (s: String)
    ensures
        s@ == spec_dec(n as nat),
    decreases n,
{
    if n < 10 {
        let s = digit_str(n).to_owned();
        assert(s@ =~= spec_dec(n as nat));
        s
    } else {
        let mut s = u64_to_string(n / 10);
        s.append(digit_str(n % 10));
        assert(s@ =~= spec_dec(n as nat));
        s
    }
}

} // verus!
