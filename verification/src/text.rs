//! Character-level helpers: conversion between strings and character
//! vectors, whitespace trimming, prefix tests, and decimal numbers.

use vstd::prelude::*;

verus! {

/// `String::push` appends exactly one character to the end of the string.
pub assume_specification[ String::push ](s: &mut String, ch: char)
    ensures
        final(s)@ == old(s)@.push(ch),
;

/// The characters of `s`, in order.
pub fn to_chars(s: &str) -> (v: Vec<char>)
    ensures
        v@ == s@,
{
    broadcast use vstd::string::group_string_axioms;

    let mut v: Vec<char> = Vec::new();
    for c in it: s.chars()
        invariant
            it.seq() == s@,
            v@ == s@.take(it.index() as int),
    {
        v.push(c);
        assert(v@ =~= s@.take(it.index() + 1));
    }
    assert(v@ =~= s@);
    v
}

/// Appends the characters `v[from..to]` to `out`.
pub fn push_range(out: &mut String, v: &Vec<char>, from: usize, to: usize)
    requires
        from <= to <= v@.len(),
    ensures
        final(out)@ == old(out)@ + v@.subrange(from as int, to as int),
{
    let mut i: usize = from;
    while i < to
        invariant
            from <= i <= to <= v@.len(),
            out@ == old(out)@ + v@.subrange(from as int, i as int),
        decreases to - i,
    {
        out.push(v[i]);
        i += 1;
    }
}

/// Whether `c` is white space in the Unicode sense.
pub open spec fn is_space(c: char) -> bool {
    ||| '\u{9}' <= c <= '\u{d}'
    ||| c == ' '
    ||| c == '\u{85}'
    ||| c == '\u{a0}'
    ||| c == '\u{1680}'
    ||| '\u{2000}' <= c <= '\u{200a}'
    ||| c == '\u{2028}'
    ||| c == '\u{2029}'
    ||| c == '\u{202f}'
    ||| c == '\u{205f}'
    ||| c == '\u{3000}'
}

/// Whether `c` is white space in the Unicode sense.
pub fn is_space_char(c: char) -> (r: bool)
    ensures
        r == is_space(c),
{
    ('\u{9}' <= c && c <= '\u{d}') || c == ' ' || c == '\u{85}' || c == '\u{a0}' || c
        == '\u{1680}' || ('\u{2000}' <= c && c <= '\u{200a}') || c == '\u{2028}' || c
        == '\u{2029}' || c == '\u{202f}' || c == '\u{205f}' || c == '\u{3000}'
}

/// `s` without its leading white space.
pub open spec fn skip_spaces(s: Seq<char>) -> Seq<char>
    decreases s.len(),
{
    if s.len() > 0 && is_space(s[0]) {
        skip_spaces(s.drop_first())
    } else {
        s
    }
}

/// `s` without its trailing white space.
pub open spec fn drop_trailing_spaces(s: Seq<char>) -> Seq<char>
    decreases s.len(),
{
    if s.len() > 0 && is_space(s.last()) {
        drop_trailing_spaces(s.drop_last())
    } else {
        s
    }
}

/// `s` without leading and trailing white space.
pub open spec fn trimmed(s: Seq<char>) -> Seq<char> {
    drop_trailing_spaces(skip_spaces(s))
}

/// What is left after dropping trailing white space is a prefix that does
/// not end in white space.
pub proof fn lemma_drop_trailing_spaces(s: Seq<char>)
    ensures
        drop_trailing_spaces(s).len() <= s.len(),
        drop_trailing_spaces(s) == s.take(drop_trailing_spaces(s).len() as int),
        drop_trailing_spaces(s).len() == 0 || !is_space(drop_trailing_spaces(s).last()),
    decreases s.len(),
{
    if s.len() > 0 && is_space(s.last()) {
        lemma_drop_trailing_spaces(s.drop_last());
        let r = drop_trailing_spaces(s);
        assert(r =~= s.take(r.len() as int));
    } else {
        assert(s =~= s.take(s.len() as int));
    }
}

/// What is left after skipping leading white space does not begin with
/// white space.
pub proof fn lemma_skip_spaces(s: Seq<char>)
    ensures
        skip_spaces(s).len() == 0 || !is_space(skip_spaces(s)[0]),
    decreases s.len(),
{
    if s.len() > 0 && is_space(s[0]) {
        lemma_skip_spaces(s.drop_first());
    }
}

/// A trimmed text neither begins nor ends with white space, and trimming
/// it again changes nothing.
pub proof fn lemma_trimmed_ends(s: Seq<char>)
    ensures
        trimmed(s).len() == 0 || (!is_space(trimmed(s)[0]) && !is_space(trimmed(s).last())),
        trimmed(trimmed(s)) == trimmed(s),
{
    let t = skip_spaces(s);
    lemma_skip_spaces(s);
    lemma_drop_trailing_spaces(t);
    let r = trimmed(s);
    if r.len() > 0 {
        assert(r[0] == t.take(r.len() as int)[0]);
    }
}

/// Narrows the range `from..to` of `v` to the part that is left after
/// trimming white space on both sides.
pub fn trim_range(v: &Vec<char>, from: usize, to: usize) -> (r: (usize, usize))
    requires
        from <= to <= v@.len(),
    ensures
        from <= r.0 <= r.1 <= to,
        v@.subrange(r.0 as int, r.1 as int) == trimmed(v@.subrange(from as int, to as int)),
{
    let mut a: usize = from;
    while a < to && is_space_char(v[a])
        invariant
            from <= a <= to <= v@.len(),
            skip_spaces(v@.subrange(from as int, to as int)) == skip_spaces(
                v@.subrange(a as int, to as int),
            ),
        decreases to - a,
    {
        assert(v@.subrange(a as int, to as int).drop_first() =~= v@.subrange(
            a as int + 1,
            to as int,
        ));
        a += 1;
    }
    let mut b: usize = to;
    while a < b && is_space_char(v[b - 1])
        invariant
            a <= b <= to <= v@.len(),
            drop_trailing_spaces(v@.subrange(a as int, to as int)) == drop_trailing_spaces(
                v@.subrange(a as int, b as int),
            ),
        decreases b - a,
    {
        assert(v@.subrange(a as int, b as int).drop_last() =~= v@.subrange(
            a as int,
            b as int - 1,
        ));
        b -= 1;
    }
    (a, b)
}

/// Whether the range `from..to` of `v` begins with `p`.
pub fn starts_with_at(v: &Vec<char>, from: usize, to: usize, p: &Vec<char>) -> (r: bool)
    requires
        from <= to <= v@.len(),
    ensures
        r == p@.is_prefix_of(v@.subrange(from as int, to as int)),
{
    if p.len() > to - from {
        return false;
    }
    let mut i: usize = 0;
    while i < p.len()
        invariant
            from <= to <= v@.len(),
            p@.len() <= to - from,
            i <= p@.len(),
            forall|j: int| 0 <= j < i ==> p@[j] == v@[from + j],
        decreases p@.len() - i,
    {
        if p[i] != v[from + i] {
            assert(v@.subrange(from as int, to as int)[i as int] == v@[from + i]);
            return false;
        }
        i += 1;
    }
    assert(p@ =~= v@.subrange(from as int, to as int).subrange(0, p@.len() as int));
    true
}

/// Whether `a` and `b` hold the same characters.
pub fn chars_equal(a: &Vec<char>, b: &Vec<char>) -> (r: bool)
    ensures
        r == (a@ == b@),
{
    if a.len() != b.len() {
        return false;
    }
    assert(a@.subrange(0, a@.len() as int) =~= a@);
    let r = starts_with_at(a, 0, a.len(), b);
    assert(r == (a@ =~= b@));
    r
}

/// Whether `a` and `b` are the same text.
pub fn same_text(a: &str, b: &str) -> (r: bool)
    ensures
        r == (a@ == b@),
{
    let x = to_chars(a);
    let y = to_chars(b);
    chars_equal(&x, &y)
}

/// Whether `p` occurs somewhere in `s`.
pub open spec fn occurs_in(p: Seq<char>, s: Seq<char>) -> bool {
    exists|i: int| 0 <= i <= s.len() && #[trigger] p.is_prefix_of(s.skip(i))
}

/// Whether `p` occurs somewhere in `v`.
pub fn contains_chars(v: &Vec<char>, p: &Vec<char>) -> (r: bool)
    ensures
        r == occurs_in(p@, v@),
{
    let n: usize = v.len();
    let mut i: usize = 0;
    while i <= n
        invariant
            n == v@.len(),
            i <= n + 1,
            forall|j: int| 0 <= j < i ==> !#[trigger] p@.is_prefix_of(v@.skip(j)),
        decreases n + 1 - i,
    {
        assert(v@.skip(i as int) =~= v@.subrange(i as int, n as int));
        if starts_with_at(v, i, n, p) {
            return true;
        }
        if i == n {
            return false;
        }
        i += 1;
    }
    false
}

/// Whether `c` is one of the ten decimal digits.
pub open spec fn is_digit(c: char) -> bool {
    '0' <= c <= '9'
}

/// Whether `s` holds decimal digits only.
pub open spec fn all_digits(s: Seq<char>) -> bool {
    forall|i: int| 0 <= i < s.len() ==> is_digit(#[trigger] s[i])
}

/// The number that the digit `c` stands for.
pub open spec fn digit_value(c: char) -> nat {
    (c as nat - '0' as nat) as nat
}

/// The number that a run of decimal digits denotes; 0 for the empty run.
pub open spec fn decimal_value(s: Seq<char>) -> nat
    decreases s.len(),
{
    if s.len() == 0 {
        0
    } else {
        decimal_value(s.drop_last()) * 10 + digit_value(s.last())
    }
}

/// The length of the run of decimal digits that `s` begins with.
pub open spec fn leading_digits(s: Seq<char>) -> nat
    decreases s.len(),
{
    if s.len() > 0 && is_digit(s[0]) {
        1 + leading_digits(s.drop_first())
    } else {
        0
    }
}

/// The run of digits at the start of `s` ends at `k` when everything before
/// `k` is a digit and `k` is the end of `s` or no digit.
pub proof fn lemma_leading_digits(s: Seq<char>, k: int)
    requires
        0 <= k <= s.len(),
        all_digits(s.take(k)),
        k == s.len() || !is_digit(s[k]),
    ensures
        leading_digits(s) == k,
    decreases s.len(),
{
    if k > 0 {
        assert(s.take(k)[0] == s[0]);
        assert forall|i: int| 0 <= i < k - 1 implies is_digit(
            #[trigger] s.drop_first().take(k - 1)[i],
        ) by {
            assert(s.take(k)[i + 1] == s[i + 1]);
        }
        lemma_leading_digits(s.drop_first(), k - 1);
    }
}

/// The end of the run of decimal digits that starts at `from`.
pub fn digit_run_end(v: &Vec<char>, from: usize, to: usize) -> (k: usize)
    requires
        from <= to <= v@.len(),
    ensures
        from <= k <= to,
        all_digits(v@.subrange(from as int, k as int)),
        k == to || !is_digit(v@[k as int]),
        k - from == leading_digits(v@.subrange(from as int, to as int)),
{
    let mut k: usize = from;
    while k < to && '0' <= v[k] && v[k] <= '9'
        invariant
            from <= k <= to <= v@.len(),
            all_digits(v@.subrange(from as int, k as int)),
        decreases to - k,
    {
        k += 1;
    }
    proof {
        let s = v@.subrange(from as int, to as int);
        assert(s.take(k - from) =~= v@.subrange(from as int, k as int));
        lemma_leading_digits(s, k - from);
    }
    k
}

/// The value of the digits `v[from..to]`, where it fits the machine word.
pub fn digits_to_usize(v: &Vec<char>, from: usize, to: usize) -> (r: Option<usize>)
    requires
        from <= to <= v@.len(),
        all_digits(v@.subrange(from as int, to as int)),
    ensures
        r == if decimal_value(v@.subrange(from as int, to as int)) <= usize::MAX {
            Some(decimal_value(v@.subrange(from as int, to as int)) as usize)
        } else {
            None
        },
{
    let mut acc: usize = 0;
    let mut fits: bool = true;
    let mut i: usize = from;
    while i < to
        invariant
            from <= i <= to <= v@.len(),
            all_digits(v@.subrange(from as int, to as int)),
            fits ==> acc == decimal_value(v@.subrange(from as int, i as int)),
            !fits ==> decimal_value(v@.subrange(from as int, i as int)) > usize::MAX,
        decreases to - i,
    {
        let c: char = v[i];
        proof {
            let s = v@.subrange(from as int, i + 1);
            assert(s.drop_last() =~= v@.subrange(from as int, i as int));
            assert(s.last() == c);
            assert(v@.subrange(from as int, to as int)[i - from] == c);
        }
        let d: usize = (c as u32 - '0' as u32) as usize;
        if fits && acc <= (usize::MAX - d) / 10 {
            acc = acc * 10 + d;
        } else {
            fits = false;
        }
        i += 1;
    }
    if fits {
        Some(acc)
    } else {
        None
    }
}

/// What parsing `s` as an unsigned machine word gives: the text is an
/// optional `+` followed by at least one decimal digit and nothing else, and
/// its value fits the word. Any other text has no value.
pub open spec fn parse_unsigned(s: Seq<char>) -> Option<usize> {
    let body = if s.len() > 0 && s[0] == '+' {
        s.drop_first()
    } else {
        s
    };
    if body.len() > 0 && all_digits(body) && decimal_value(body) <= usize::MAX {
        Some(decimal_value(body) as usize)
    } else {
        None
    }
}

/// Parses the range `from..to` of `v` as an unsigned machine word.
pub fn parse_usize_range(v: &Vec<char>, from: usize, to: usize) -> (r: Option<usize>)
    requires
        from <= to <= v@.len(),
    ensures
        r == parse_unsigned(v@.subrange(from as int, to as int)),
{
    let ghost s = v@.subrange(from as int, to as int);
    let start: usize = if from < to && v[from] == '+' {
        from + 1
    } else {
        from
    };
    let ghost body = v@.subrange(start as int, to as int);
    proof {
        if start > from {
            assert(s[0] == v@[from as int]);
            assert(s.drop_first() =~= body);
        } else {
            if s.len() > 0 {
                assert(s[0] == v@[from as int]);
            }
            assert(s =~= body);
        }
    }
    let k: usize = digit_run_end(v, start, to);
    if start == to || k < to {
        proof {
            if k < to {
                assert(body[k - start] == v@[k as int]);
            }
        }
        None
    } else {
        digits_to_usize(v, start, to)
    }
}

/// Parses the trimmed `s` as an unsigned machine word.
pub open spec fn parse_trimmed(s: Seq<char>) -> Option<usize> {
    parse_unsigned(trimmed(s))
}

/// Parses `s`, without the white space around it, as an unsigned machine
/// word.
pub fn parse_trimmed_usize(s: &str) -> (r: Option<usize>)
    ensures
        r == parse_trimmed(s@),
{
    let v = to_chars(s);
    assert(v@.subrange(0, v@.len() as int) =~= v@);
    let (a, b) = trim_range(&v, 0, v.len());
    parse_usize_range(&v, a, b)
}

/// The character for a digit below ten.
pub open spec fn digit_char(d: nat) -> char {
    if d == 0 {
        '0'
    } else if d == 1 {
        '1'
    } else if d == 2 {
        '2'
    } else if d == 3 {
        '3'
    } else if d == 4 {
        '4'
    } else if d == 5 {
        '5'
    } else if d == 6 {
        '6'
    } else if d == 7 {
        '7'
    } else if d == 8 {
        '8'
    } else {
        '9'
    }
}

/// The decimal numeral of `n`, without leading zeros.
pub open spec fn decimal(n: nat) -> Seq<char>
    decreases n,
{
    if n < 10 {
        seq![digit_char(n)]
    } else {
        decimal(n / 10).push(digit_char(n % 10))
    }
}

/// The character for a digit below ten.
pub fn digit_to_char(d: u128) -> (c: char)
    requires
        d < 10,
    ensures
        c == digit_char(d as nat),
{
    if d == 0 {
        '0'
    } else if d == 1 {
        '1'
    } else if d == 2 {
        '2'
    } else if d == 3 {
        '3'
    } else if d == 4 {
        '4'
    } else if d == 5 {
        '5'
    } else if d == 6 {
        '6'
    } else if d == 7 {
        '7'
    } else if d == 8 {
        '8'
    } else {
        '9'
    }
}

/// Appends the decimal numeral of `n` to `out`.
pub fn push_decimal(out: &mut String, n: u128)
    ensures
        final(out)@ == old(out)@ + decimal(n as nat),
    decreases n,
{
    if n >= 10 {
        push_decimal(out, n / 10);
    }
    out.push(digit_to_char(n % 10));
    assert(out@ =~= old(out)@ + decimal(n as nat));
}

/// A numeral is made of digits, and denotes the number it was made from.
pub proof fn lemma_decimal_value(n: nat)
    ensures
        decimal(n).len() > 0,
        all_digits(decimal(n)),
        decimal_value(decimal(n)) == n,
    decreases n,
{
    if n < 10 {
        let s = decimal(n);
        assert(s.drop_last() =~= Seq::<char>::empty());
        assert(decimal_value(s.drop_last()) == 0);
        assert(s.last() == digit_char(n));
    } else {
        lemma_decimal_value(n / 10);
        let s = decimal(n);
        assert(s.drop_last() =~= decimal(n / 10));
        assert(s.last() == digit_char(n % 10));
    }
}


/// The length of the run of characters other than `stop` that `s` begins
/// with.
pub open spec fn run_len(s: Seq<char>, stop: char) -> nat
    decreases s.len(),
{
    if s.len() > 0 && s[0] != stop {
        1 + run_len(s.drop_first(), stop)
    } else {
        0
    }
}

/// The run of characters other than `stop` at the start of `s` ends at `k`
/// when no character before `k` is `stop` and `k` is the end of `s` or holds
/// `stop`.
pub proof fn lemma_run_len(s: Seq<char>, stop: char, k: int)
    requires
        0 <= k <= s.len(),
        forall|i: int| 0 <= i < k ==> s[i] != stop,
        k == s.len() || s[k] == stop,
    ensures
        run_len(s, stop) == k,
    decreases s.len(),
{
    if k > 0 {
        lemma_run_len(s.drop_first(), stop, k - 1);
    }
}

/// The first place at or after `from` that holds `stop`, or `to` where
/// there is none.
pub fn run_end(v: &Vec<char>, from: usize, to: usize, stop: char) -> (k: usize)
    requires
        from <= to <= v@.len(),
    ensures
        from <= k <= to,
        k - from == run_len(v@.subrange(from as int, to as int), stop),
        k == to || v@[k as int] == stop,
{
    let mut k: usize = from;
    while k < to && v[k] != stop
        invariant
            from <= k <= to <= v@.len(),
            forall|i: int| from <= i < k ==> v@[i] != stop,
        decreases to - k,
    {
        k += 1;
    }
    proof {
        lemma_run_len(v@.subrange(from as int, to as int), stop, k - from);
    }
    k
}

/// The lines of a text: the pieces between its line feeds. A line feed at
/// the very end starts no further line. A carriage return before a line
/// feed stays with its line, as trailing white space.
pub open spec fn lines(s: Seq<char>) -> Seq<Seq<char>>
    decreases s.len(),
{
    if s.len() == 0 {
        Seq::<Seq<char>>::empty()
    } else {
        let n = run_len(s, '\n');
        if n < s.len() {
            seq![s.take(n as int)] + lines(s.skip(n as int + 1))
        } else {
            seq![s]
        }
    }
}

/// The ranges of `v` that hold its lines, in order.
pub fn line_ranges(v: &Vec<char>) -> (r: Vec<(usize, usize)>)
    ensures
        r@.len() == lines(v@).len(),
        forall|i: int|
            0 <= i < r@.len() ==> (#[trigger] r@[i]).0 <= r@[i].1 <= v@.len() && v@.subrange(
                r@[i].0 as int,
                r@[i].1 as int,
            ) == lines(v@)[i],
{
    let n: usize = v.len();
    let mut out: Vec<(usize, usize)> = Vec::new();
    let mut pos: usize = 0;
    let ghost mut collected: Seq<Seq<char>> = Seq::empty();
    assert(v@.skip(0) =~= v@);
    while pos < n
        invariant
            pos <= n == v@.len(),
            lines(v@) == collected + lines(v@.skip(pos as int)),
            out@.len() == collected.len(),
            forall|i: int|
                0 <= i < out@.len() ==> (#[trigger] out@[i]).0 <= out@[i].1 <= v@.len()
                    && v@.subrange(out@[i].0 as int, out@[i].1 as int) == collected[i],
        decreases n - pos,
    {
        let e: usize = run_end(v, pos, n, '\n');
        let ghost s = v@.skip(pos as int);
        let ghost line = v@.subrange(pos as int, e as int);
        proof {
            assert(s =~= v@.subrange(pos as int, n as int));
            if e < n {
                assert(s.take(e - pos) =~= line);
                assert(s.skip(e - pos + 1) =~= v@.skip(e + 1));
                assert(collected + (seq![line] + lines(v@.skip(e + 1))) =~= collected.push(line)
                    + lines(v@.skip(e + 1)));
            } else {
                assert(s =~= line);
                assert(v@.skip(n as int).len() == 0);
                assert(collected + seq![line] =~= collected.push(line) + lines(
                    v@.skip(n as int),
                ));
            }
        }
        out.push((pos, e));
        proof {
            collected = collected.push(line);
        }
        if e < n {
            pos = e + 1;
        } else {
            pos = n;
        }
    }
    proof {
        assert(v@.skip(n as int).len() == 0);
        assert(lines(v@) =~= collected);
    }
    out
}

/// `s` without the copies of `p` that it begins with, one after another.
pub open spec fn strip_repeated(s: Seq<char>, p: Seq<char>) -> Seq<char>
    decreases s.len(),
{
    if p.len() > 0 && p.is_prefix_of(s) {
        strip_repeated(s.skip(p.len() as int), p)
    } else {
        s
    }
}

/// The place in `from..to` behind the copies of `p` that the range begins
/// with.
pub fn strip_repeated_at(v: &Vec<char>, from: usize, to: usize, p: &Vec<char>) -> (a: usize)
    requires
        from <= to <= v@.len(),
    ensures
        from <= a <= to,
        v@.subrange(a as int, to as int) == strip_repeated(
            v@.subrange(from as int, to as int),
            p@,
        ),
{
    let mut a: usize = from;
    if p.len() == 0 {
        return a;
    }
    while starts_with_at(v, a, to, p)
        invariant
            from <= a <= to <= v@.len(),
            p@.len() > 0,
            strip_repeated(v@.subrange(from as int, to as int), p@) == strip_repeated(
                v@.subrange(a as int, to as int),
                p@,
            ),
        decreases to - a,
    {
        assert(v@.subrange(a as int, to as int).skip(p@.len() as int) =~= v@.subrange(
            a + p@.len(),
            to as int,
        ));
        a += p.len();
    }
    a
}

/// The characters `v[from..to]` as a string.
pub fn string_of_range(v: &Vec<char>, from: usize, to: usize) -> (r: String)
    requires
        from <= to <= v@.len(),
    ensures
        r@ == v@.subrange(from as int, to as int),
{
    let mut r = String::new();
    push_range(&mut r, v, from, to);
    assert(r@ =~= v@.subrange(from as int, to as int));
    r
}

} // verus!
