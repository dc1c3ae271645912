use vstd::prelude::*;
use crate::text::str_to_chars;

verus! {

/// Relies on `alloc::string::String::push`: appends the given character to
/// the end of the string.
pub assume_specification[ String::push ](s: &mut String, ch: char)
    ensures
        final(s)@ == old(s)@.push(ch),
;

/// The numeric value of a decimal digit character; 10 for any other character.
pub open spec fn digit_val(c: char) -> nat {
    match c {
        '0' => 0,
        '1' => 1,
        '2' => 2,
        '3' => 3,
        '4' => 4,
        '5' => 5,
        '6' => 6,
        '7' => 7,
        '8' => 8,
        '9' => 9,
        _ => 10,
    }
}

/// True when `c` is a decimal digit.
pub open spec fn is_digit(c: char) -> bool {
    digit_val(c) < 10
}

/// True when every character of `s` is a decimal digit.
pub open spec fn all_digits(s: Seq<char>) -> bool {
    forall|i: int| 0 <= i < s.len() ==> is_digit(s[i])
}

/// The number that `s` denotes when read as a decimal numeral.
pub open spec fn str_value(s: Seq<char>) -> nat
    decreases s.len(),
{
    if s.len() == 0 {
        0
    } else {
        str_value(s.drop_last()) * 10 + digit_val(s.last())
    }
}

/// A numeral's prefixes denote no more than the whole numeral.
proof fn lemma_str_value_take_le(s: Seq<char>, j: int)
    requires
        0 <= j <= s.len(),
    ensures
        str_value(s.take(j)) <= str_value(s),
    decreases s.len() - j,
{
    if j == s.len() {
        assert(s.take(j) =~= s);
    } else {
        lemma_str_value_take_le(s, j + 1);
        assert(s.take(j + 1).drop_last() =~= s.take(j));
        assert(s.take(j + 1).last() == s[j]);
        assert(str_value(s.take(j + 1)) == str_value(s.take(j)) * 10 + digit_val(s[j]));
    }
}

/// The numeric value of a decimal digit character.
fn digit_val_exec(c: char) -> (d: usize)
    ensures
        d as nat == digit_val(c),
{
    match c {
        '0' => 0,
        '1' => 1,
        '2' => 2,
        '3' => 3,
        '4' => 4,
        '5' => 5,
        '6' => 6,
        '7' => 7,
        '8' => 8,
        '9' => 9,
        _ => 10,
    }
}

/// Reads `s` as a decimal numeral. Returns the denoted number exactly when
/// `s` is non-empty, consists of decimal digits only, and its value fits in
/// `usize`; returns `None` otherwise.
pub fn parse_usize(s: &str) -> (r: Option<usize>)
    ensures
        match r {
            Some(v) => s@.len() > 0 && all_digits(s@) && v as nat == str_value(s@),
            None => !(s@.len() > 0 && all_digits(s@) && str_value(s@) <= usize::MAX),
        },
{
    let chars = str_to_chars(s);
    let n: usize = chars.len();
    if n == 0 {
        return None;
    }
    let mut acc: usize = 0;
    let mut i: usize = 0;
    while i < n
        invariant
            chars@ == s@,
            n == s@.len(),
            i <= n,
            all_digits(s@.take(i as int)),
            acc as nat == str_value(s@.take(i as int)),
        decreases n - i,
    {
        let d = digit_val_exec(chars[i]);
        if d >= 10 {
            assert(!is_digit(s@[i as int]));
            return None;
        }
        proof {
            assert(s@.take(i + 1).drop_last() =~= s@.take(i as int));
            assert(s@.take(i + 1).last() == s@[i as int]);
            assert(str_value(s@.take(i + 1)) == str_value(s@.take(i as int)) * 10 + digit_val(
                s@[i as int],
            ));
        }
        if acc > (usize::MAX - d) / 10 {
            proof {
                let q = ((usize::MAX - d) / 10) as int;
                assert(q * 10 + 10 > usize::MAX - d) by (nonlinear_arith)
                    requires
                        q == ((usize::MAX - d) as int) / 10,
                        0 <= d < 10,
                {}
                assert(acc as int * 10 >= (q + 1) * 10) by (nonlinear_arith)
                    requires
                        acc as int >= q + 1,
                {}
                assert(str_value(s@.take(i + 1)) > usize::MAX);
                lemma_str_value_take_le(s@, i + 1);
                assert(str_value(s@) > usize::MAX);
            }
            return None;
        }
        proof {
            let q = ((usize::MAX - d) / 10) as int;
            assert(q * 10 <= usize::MAX - d) by (nonlinear_arith)
                requires
                    q == ((usize::MAX - d) as int) / 10,
                    0 <= d < 10,
            {}
            assert(acc as int * 10 <= q * 10) by (nonlinear_arith)
                requires
                    acc as int <= q,
            {}
        }
        acc = acc * 10 + d;
        i = i + 1;
    }
    assert(s@.take(i as int) =~= s@);
    Some(acc)
}

/// The character that denotes the decimal digit `d`.
pub open spec fn digit_char(d: nat) -> char {
    if d == 0 {
        '0'
    } else if d == 1 {
        '1'
    } else if d == 2 {
        '2'
    } else if d == 3 {
        '3'
    } else if d == 4 {
        '4'
    } else if d == 5 {
        '5'
    } else if d == 6 {
        '6'
    } else if d == 7 {
        '7'
    } else if d == 8 {
        '8'
    } else {
        '9'
    }
}

/// The decimal numeral that denotes `n`, without leading zeros (a single
/// zero for `n == 0`).
pub open spec fn dec_seq(n: nat) -> Seq<char>
    decreases n,
{
    if n < 10 {
        seq![digit_char(n)]
    } else {
        dec_seq(n / 10) + seq![digit_char(n % 10)]
    }
}

/// The character that denotes the decimal digit `d`.
fn digit_char_exec(d: usize) -> (c: char)
    requires
        d < 10,
    ensures
        c == digit_char(d as nat),
{
    match d {
        0 => '0',
        1 => '1',
        2 => '2',
        3 => '3',
        4 => '4',
        5 => '5',
        6 => '6',
        7 => '7',
        8 => '8',
        _ => '9',
    }
}

/// Appends the decimal numeral of `n` to `out`.
pub fn push_decimal(out: &mut String, n: usize)
    ensures
        final(out)@ == old(out)@ + dec_seq(n as nat),
    decreases n,
{
    if n >= 10 {
        push_decimal(out, n / 10);
        let c = digit_char_exec(n % 10);
        out.push(c);
        assert(out@ =~= old(out)@ + dec_seq(n as nat));
    } else {
        let c = digit_char_exec(n);
        out.push(c);
        assert(out@ =~= old(out)@ + dec_seq(n as nat));
    }
}

} // verus!
