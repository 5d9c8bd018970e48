//! Byte counts: reading a size token with a unit suffix, and writing a byte
//! count with a unit chosen by magnitude.

use crate::text::{
    decimal, decimal_value, digit_char, digit_run_end, digit_to_char, digits_to_usize,
    is_digit, leading_digits, lemma_decimal_value, lemma_leading_digits, push_decimal, to_chars,
};
use vstd::prelude::*;

verus! {

/// The factor that the last character of a size token stands for: 1024 for
/// `K`, its square for `M`, its cube for `G`, and 1 for anything else.
pub open spec fn unit_multiplier(s: Seq<char>) -> nat {
    if s.len() > 0 && s.last() == 'K' {
        1024
    } else if s.len() > 0 && s.last() == 'M' {
        1024 * 1024
    } else if s.len() > 0 && s.last() == 'G' {
        1024 * 1024 * 1024
    } else {
        1
    }
}

/// The byte count that a size token denotes: the number written by its
/// leading digits times the factor of its last character. A token without
/// leading digits, or whose byte count does not fit the machine word,
/// denotes 0.
pub open spec fn parse_size(s: Seq<char>) -> nat {
    let total = decimal_value(s.take(leading_digits(s) as int)) * unit_multiplier(s);
    if total <= usize::MAX {
        total
    } else {
        0
    }
}

/// Reads the size token `v[from..to]` as a number of bytes.
pub fn parse_size_range(v: &Vec<char>, from: usize, to: usize) -> (bytes: usize)
    requires
        from <= to <= v@.len(),
    ensures
        bytes == parse_size(v@.subrange(from as int, to as int)),
{
    let ghost s = v@.subrange(from as int, to as int);
    let k: usize = digit_run_end(v, from, to);
    assert(s.take(k - from) =~= v@.subrange(from as int, k as int));
    let factor: usize = if from < to && v[to - 1] == 'K' {
        1024
    } else if from < to && v[to - 1] == 'M' {
        1024 * 1024
    } else if from < to && v[to - 1] == 'G' {
        1024 * 1024 * 1024
    } else {
        1
    };
    proof {
        if from < to {
            assert(s.last() == v@[to - 1]);
        }
        assert(factor == unit_multiplier(s));
    }
    match digits_to_usize(v, from, k) {
        Some(base) => {
            if base <= usize::MAX / factor {
                assert(base * factor <= usize::MAX) by (nonlinear_arith)
                    requires
                        base <= usize::MAX / factor,
                        factor > 0,
                ;
                base * factor
            } else {
                assert(base * factor > usize::MAX) by (nonlinear_arith)
                    requires
                        base > usize::MAX / factor,
                        factor > 0,
                ;
                0
            }
        },
        None => {
            assert(decimal_value(s.take(k - from)) * factor > usize::MAX) by (nonlinear_arith)
                requires
                    decimal_value(s.take(k - from)) > usize::MAX,
                    factor >= 1,
            ;
            0
        },
    }
}

/// Reads a size token such as `32K` or `4M` as a number of bytes.
pub fn parse_size_with_unit(size_str: &str) -> (bytes: usize)
    ensures
        bytes == parse_size(size_str@),
{
    let v = to_chars(size_str);
    assert(v@.subrange(0, v@.len() as int) =~= v@);
    parse_size_range(&v, 0, v.len())
}

/// A decimal numeral followed by nothing, `K`, `M` or `G` denotes the number
/// times 1, 1024, 1024 squared or 1024 cubed, as long as the product fits the
/// machine word.
pub proof fn lemma_parse_size_of_numeral(n: nat, suffix: Seq<char>)
    requires
        suffix == ""@ || suffix == "K"@ || suffix == "M"@ || suffix == "G"@,
        n * unit_multiplier(suffix) <= usize::MAX,
    ensures
        parse_size(decimal(n) + suffix) == n * unit_multiplier(suffix),
        unit_multiplier(""@) == 1,
        unit_multiplier("K"@) == 1024,
        unit_multiplier("M"@) == 1024 * 1024,
        unit_multiplier("G"@) == 1024 * 1024 * 1024,
{
    reveal_strlit("");
    reveal_strlit("K");
    reveal_strlit("M");
    reveal_strlit("G");
    lemma_decimal_value(n);
    let d = decimal(n);
    let s = d + suffix;
    let k = d.len() as int;
    assert(s.take(k) =~= d);
    lemma_leading_digits(s, k);
    if suffix.len() == 0 {
        assert(s =~= d);
        assert(is_digit(d[k - 1]));
    } else {
        assert(s.last() == suffix.last());
    }
    assert(unit_multiplier(s) == unit_multiplier(suffix));
}

/// A token that does not begin with a digit denotes 0.
pub proof fn lemma_parse_size_without_digits(s: Seq<char>)
    requires
        s.len() == 0 || !is_digit(s[0]),
    ensures
        parse_size(s) == 0,
{
    assert(s.take(0) =~= Seq::<char>::empty());
    assert(decimal_value(s.take(0)) * unit_multiplier(s) == 0) by (nonlinear_arith)
        requires
            decimal_value(s.take(0)) == 0,
    ;
}

/// `size` in hundredths of `unit`, rounded to the nearest hundredth, a tie
/// going to the even one.
pub open spec fn hundredths(size: nat, unit: nat) -> nat {
    let f = (size * 100) / unit;
    let rest = (size * 100) % unit;
    if 2 * rest > unit || (2 * rest == unit && f % 2 == 1) {
        f + 1
    } else {
        f
    }
}

/// `size` written in `unit` with two decimal places, followed by `label`.
pub open spec fn scaled_text(size: nat, unit: nat, label: Seq<char>) -> Seq<char> {
    let h = hundredths(size, unit);
    decimal(h / 100) + seq!['.', digit_char((h / 10) % 10), digit_char(h % 10)] + label
}

/// The display text of a byte count. Zero stands for a size that was not
/// detected. Below 1024 the count is written as it is; from there on in the
/// largest of KB, MB and GB in which it is at least 1.
pub open spec fn size_text(size: nat) -> Seq<char> {
    if size == 0 {
        "Not detected"@
    } else if size < 1024 {
        decimal(size) + " B"@
    } else if size < 1024 * 1024 {
        scaled_text(size, 1024, " KB"@)
    } else if size < 1024 * 1024 * 1024 {
        scaled_text(size, 1024 * 1024, " MB"@)
    } else {
        scaled_text(size, 1024 * 1024 * 1024, " GB"@)
    }
}

fn push_scaled(out: &mut String, size: usize, unit: u128, label: &str)
    requires
        0 < unit <= 1024 * 1024 * 1024,
    ensures
        final(out)@ == old(out)@ + scaled_text(size as nat, unit as nat, label@),
{
    let t: u128 = (size as u128) * 100;
    let f: u128 = t / unit;
    let rest: u128 = t % unit;
    let h: u128 = if 2 * rest > unit || (2 * rest == unit && f % 2 == 1) {
        f + 1
    } else {
        f
    };
    assert(h == hundredths(size as nat, unit as nat));
    push_decimal(out, h / 100);
    out.push('.');
    out.push(digit_to_char((h / 10) % 10));
    out.push(digit_to_char(h % 10));
    out.append(label);
    assert(out@ =~= old(out)@ + scaled_text(size as nat, unit as nat, label@));
}

/// Writes a byte count for display.
pub fn format_size(size: usize) -> (text: String)
    ensures
        text@ == size_text(size as nat),
{
    if size == 0 {
        return String::from_str("Not detected");
    }
    let mut out = String::new();
    if size < 1024 {
        push_decimal(&mut out, size as u128);
        out.append(" B");
    } else if size < 1024 * 1024 {
        push_scaled(&mut out, size, 1024, " KB");
    } else if size < 1024 * 1024 * 1024 {
        push_scaled(&mut out, size, 1024 * 1024, " MB");
    } else {
        push_scaled(&mut out, size, 1024 * 1024 * 1024, " GB");
    }
    assert(out@ =~= size_text(size as nat));
    out
}

} // verus!
