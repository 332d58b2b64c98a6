//! Small text tools: cutting, trimming, and decimal numbers.

use vstd::prelude::*;
use vstd::string::{StrSliceExecFns, StringExecFns};

verus! {

/// The parts of `text` between the separators; an empty text has one empty part.
pub open spec fn split(text: Seq<char>, sep: char) -> Seq<Seq<char>>
    decreases text.len(),
{
    if text.len() == 0 {
        seq![Seq::empty()]
    } else {
        let parts = split(text.drop_last(), sep);
        if text.last() == sep {
            parts.push(Seq::empty())
        } else {
            parts.drop_last().push(parts.last().push(text.last()))
        }
    }
}

/// The parts, put together with the separator between them.
pub open spec fn join(parts: Seq<Seq<char>>, sep: char) -> Seq<char>
    decreases parts.len(),
{
    if parts.len() == 0 {
        Seq::empty()
    } else if parts.len() == 1 {
        parts[0]
    } else {
        join(parts.drop_last(), sep).push(sep) + parts.last()
    }
}

/// The characters with the Unicode property White_Space.
pub open spec fn white_space(c: char) -> bool {
    let u = c as u32;
    ||| 0x9 <= u <= 0xd
    ||| u == 0x20
    ||| u == 0x85
    ||| u == 0xa0
    ||| u == 0x1680
    ||| 0x2000 <= u <= 0x200a
    ||| u == 0x2028
    ||| u == 0x2029
    ||| u == 0x202f
    ||| u == 0x205f
    ||| u == 0x3000
}

/// `text` without the white space at its start.
pub open spec fn trim_start(text: Seq<char>) -> Seq<char>
    decreases text.len(),
{
    if text.len() > 0 && white_space(text.first()) {
        trim_start(text.drop_first())
    } else {
        text
    }
}

/// `text` without the white space at its end.
pub open spec fn trim_end(text: Seq<char>) -> Seq<char>
    decreases text.len(),
{
    if text.len() > 0 && white_space(text.last()) {
        trim_end(text.drop_last())
    } else {
        text
    }
}

/// `text` without the white space at either end.
pub open spec fn trimmed(text: Seq<char>) -> Seq<char> {
    trim_end(trim_start(text))
}

/// `line` without one carriage return at its end.
pub open spec fn without_cr(line: Seq<char>) -> Seq<char> {
    if line.len() > 0 && line.last() == '\r' {
        line.drop_last()
    } else {
        line
    }
}

/// The lines of `text`.  A line ends at a line feed, with or without a carriage
/// return before it; the last line need not end.
pub open spec fn lines(text: Seq<char>) -> Seq<Seq<char>> {
    let parts = split(text, '\n');
    let ended = parts.drop_last().map_values(|line: Seq<char>| without_cr(line));
    if parts.last().len() == 0 {
        ended
    } else {
        ended.push(parts.last())
    }
}

/// The decimal digit for `d`.
pub open spec fn digit(d: int) -> char {
    (48 + d) as char
}

/// `n` in decimal.
pub open spec fn decimal(n: nat) -> Seq<char>
    decreases n,
{
    if n < 10 {
        seq![digit(n as int)]
    } else {
        decimal(n / 10).push(digit((n % 10) as int))
    }
}

/// Whether `c` is a decimal digit.
pub open spec fn is_digit(c: char) -> bool {
    48 <= c as u32 <= 57
}

/// The number that a run of decimal digits stands for.
pub open spec fn digits_value(digits: Seq<char>) -> int
    decreases digits.len(),
{
    if digits.len() == 0 {
        0
    } else {
        10 * digits_value(digits.drop_last()) + (digits.last() as u32 - 48)
    }
}

/// The digits of a number that may start with a plus sign.
pub open spec fn unsigned_digits(text: Seq<char>) -> Seq<char> {
    if text.len() > 0 && text[0] == '+' {
        text.drop_first()
    } else {
        text
    }
}

/// The number that `text` stands for: decimal digits, at least one, after an
/// optional plus sign; none where it does not fit 32 bits.
pub open spec fn u32_value(text: Seq<char>) -> Option<u32> {
    let digits = unsigned_digits(text);
    if digits.len() > 0 && (forall|i: int| 0 <= i < digits.len() ==> is_digit(#[trigger] digits[i]))
        && digits_value(digits) <= u32::MAX {
        Some(digits_value(digits) as u32)
    } else {
        None
    }
}

/// Whether `c` has the Unicode property White_Space.
pub fn is_white_space(c: char) -> (res: bool)
    ensures
        res == white_space(c),
{
    let u: u32 = c as u32;
    (0x9 <= u && u <= 0xd) || u == 0x20 || u == 0x85 || u == 0xa0 || u == 0x1680 || (0x2000 <= u
        && u <= 0x200a) || u == 0x2028 || u == 0x2029 || u == 0x202f || u == 0x205f || u == 0x3000
}

/// The characters of a text.
pub fn chars_of(text: &str) -> (res: Vec<char>)
    ensures
        res@ == text@,
{
    let mut out: Vec<char> = Vec::new();
    for c in it: text.chars()
        invariant
            out@ == it.seq().take(it.index() as int),
            it.seq() == text@,
    {
        out.push(c);
        assert(it.seq().take(it.index() + 1) =~= it.seq().take(it.index() as int).push(c));
    }
    assert(text@.take(text@.len() as int) =~= text@);
    out
}

/// The range `from..to` of `chars` without the white space at either end.
pub fn trim_range(chars: &Vec<char>, from: usize, to: usize) -> (res: (usize, usize))
    requires
        from <= to <= chars@.len(),
    ensures
        from <= res.0 <= res.1 <= to,
        chars@.subrange(res.0 as int, res.1 as int) == trimmed(
            chars@.subrange(from as int, to as int),
        ),
{
    let mut a: usize = from;
    let mut b: usize = to;
    let ghost all = chars@.subrange(from as int, to as int);
    while a < b && is_white_space(chars[a])
        invariant
            from <= a <= b == to <= chars@.len(),
            trim_start(chars@.subrange(a as int, b as int)) == trim_start(all),
        ensures
            from <= a <= b == to,
            trim_start(chars@.subrange(a as int, b as int)) == trim_start(all),
            a == b || !white_space(chars@[a as int]),
        decreases b - a,
    {
        proof {
            let s = chars@.subrange(a as int, b as int);
            assert(s.drop_first() =~= chars@.subrange(a + 1, b as int));
        }
        a = a + 1;
    }
    let ghost started = chars@.subrange(a as int, b as int);
    assert(started == trim_start(all));
    while a < b && is_white_space(chars[b - 1])
        invariant
            from <= a <= b <= to <= chars@.len(),
            trim_end(chars@.subrange(a as int, b as int)) == trim_end(started),
        ensures
            from <= a <= b <= to,
            trim_end(chars@.subrange(a as int, b as int)) == trim_end(started),
            a == b || !white_space(chars@[b - 1]),
        decreases b - a,
    {
        proof {
            let s = chars@.subrange(a as int, b as int);
            assert(s.drop_last() =~= chars@.subrange(a as int, b - 1));
        }
        b = b - 1;
    }
    (a, b)
}

/// The texts that ranges of `chars` stand for.
pub open spec fn cut(chars: Seq<char>, ranges: Seq<(usize, usize)>) -> Seq<Seq<char>> {
    ranges.map_values(|r: (usize, usize)| chars.subrange(r.0 as int, r.1 as int))
}

/// The ranges of `chars[from..to]` between the separators.
pub fn split_ranges(chars: &Vec<char>, from: usize, to: usize, sep: char) -> (res: Vec<
    (usize, usize),
>)
    requires
        from <= to <= chars@.len(),
    ensures
        res@.len() >= 1,
        forall|k: int|
            0 <= k < res@.len() ==> from <= (#[trigger] res@[k]).0 <= res@[k].1 <= to,
        cut(chars@, res@) == split(chars@.subrange(from as int, to as int), sep),
{
    let mut out: Vec<(usize, usize)> = Vec::new();
    let mut start: usize = from;
    let mut i: usize = from;
    proof {
        let part = chars@.subrange(from as int, from as int);
        assert(part =~= Seq::<char>::empty());
        assert(cut(chars@, out@).push(part) =~= split(part, sep));
    }
    while i < to
        invariant
            from <= start <= i <= to <= chars@.len(),
            forall|k: int|
                0 <= k < out@.len() ==> from <= (#[trigger] out@[k]).0 <= out@[k].1 <= to,
            cut(chars@, out@).push(chars@.subrange(start as int, i as int)) == split(
                chars@.subrange(from as int, i as int),
                sep,
            ),
        decreases to - i,
    {
        let ghost whole = chars@.subrange(from as int, i + 1);
        let ghost parts = cut(chars@, out@).push(chars@.subrange(start as int, i as int));
        proof {
            assert(whole.drop_last() =~= chars@.subrange(from as int, i as int));
            assert(whole.last() == chars@[i as int]);
        }
        if chars[i] == sep {
            out.push((start, i));
            start = i + 1;
            proof {
                assert(cut(chars@, out@) =~= parts);
                assert(chars@.subrange(start as int, i + 1) =~= Seq::<char>::empty());
            }
        } else {
            proof {
                assert(parts.drop_last() =~= cut(chars@, out@));
                assert(chars@.subrange(start as int, i + 1) =~= parts.last().push(
                    chars@[i as int],
                ));
            }
        }
        i = i + 1;
    }
    let ghost last = cut(chars@, out@).push(chars@.subrange(start as int, to as int));
    out.push((start, to));
    assert(cut(chars@, out@) =~= last);
    out
}

/// The text of a range.
pub fn text_of(text: &str, from: usize, to: usize) -> (res: String)
    requires
        from <= to <= text@.len(),
    ensures
        res@ == text@.subrange(from as int, to as int),
{
    text.substring_char(from, to).to_owned()
}

/// A decimal digit as text.
fn digit_text(d: usize) -> (res: &'static str)
    requires
        d < 10,
    ensures
        res@ == seq![digit(d as int)],
{
    proof {
        reveal_strlit("0");
        reveal_strlit("1");
        reveal_strlit("2");
        reveal_strlit("3");
        reveal_strlit("4");
        reveal_strlit("5");
        reveal_strlit("6");
        reveal_strlit("7");
        reveal_strlit("8");
        reveal_strlit("9");
    }
    let res = if d == 0 {
        "0"
    } else if d == 1 {
        "1"
    } else if d == 2 {
        "2"
    } else if d == 3 {
        "3"
    } else if d == 4 {
        "4"
    } else if d == 5 {
        "5"
    } else if d == 6 {
        "6"
    } else if d == 7 {
        "7"
    } else if d == 8 {
        "8"
    } else {
        "9"
    };
    assert(res@ =~= seq![digit(d as int)]);
    res
}

/// Appends `n` in decimal.
pub fn append_decimal(out: &mut String, n: usize)
    ensures
        final(out)@ == old(out)@ + decimal(n as nat),
    decreases n,
{
    let ghost before = out@;
    if n >= 10 {
        append_decimal(out, n / 10);
    }
    out.append(digit_text(n % 10));
    assert(out@ =~= before + decimal(n as nat));
}

/// Reads the range `from..to` of `chars` as an unsigned 32-bit number.
pub fn parse_u32(chars: &Vec<char>, from: usize, to: usize) -> (res: Option<u32>)
    requires
        from <= to <= chars@.len(),
    ensures
        res == u32_value(chars@.subrange(from as int, to as int)),
{
    let ghost text = chars@.subrange(from as int, to as int);
    let start: usize = if from < to && chars[from] == '+' {
        from + 1
    } else {
        from
    };
    let ghost digits = unsigned_digits(text);
    assert(digits =~= chars@.subrange(start as int, to as int));
    if start == to {
        return None;
    }
    let mut value: u64 = 0;
    let mut i: usize = start;
    while i < to
        invariant
            from <= start <= i <= to <= chars@.len(),
            start < to,
            text == chars@.subrange(from as int, to as int),
            digits == unsigned_digits(text),
            digits == chars@.subrange(start as int, to as int),
            forall|j: int| 0 <= j < i - start ==> is_digit(#[trigger] digits[j]),
            value == digits_value(digits.take(i - start)),
            value <= u32::MAX,
        decreases to - i,
    {
        let c: u32 = chars[i] as u32;
        assert(digits[i - start] == chars@[i as int]);
        if c < 48 || c > 57 {
            assert(!is_digit(digits[i - start]));
            return None;
        }
        let ghost k = i - start;
        proof {
            assert(digits.take(k + 1).drop_last() =~= digits.take(k));
            assert(digits.take(k + 1).last() == digits[k]);
        }
        value = 10 * value + (c - 48) as u64;
        i = i + 1;
        if value > u32::MAX as u64 {
            proof {
                if forall|j: int| 0 <= j < digits.len() ==> is_digit(#[trigger] digits[j]) {
                    lemma_prefix_value(digits, k + 1);
                }
            }
            return None;
        }
    }
    assert(digits.take(to - start) =~= digits);
    Some(value as u32)
}

/// The value of a run of digits is no less than that of its start.
proof fn lemma_prefix_value(digits: Seq<char>, n: int)
    requires
        0 <= n <= digits.len(),
        forall|j: int| 0 <= j < digits.len() ==> is_digit(#[trigger] digits[j]),
    ensures
        0 <= digits_value(digits.take(n)) <= digits_value(digits),
    decreases digits.len(),
{
    if digits.len() == 0 {
        assert(digits.take(n) =~= digits);
    } else {
        let rest = digits.drop_last();
        if n == digits.len() {
            assert(digits.take(n) =~= digits);
            lemma_prefix_value(rest, n - 1);
            assert(is_digit(digits[digits.len() - 1]));
        } else {
            lemma_prefix_value(rest, n);
            assert(rest.take(n) =~= digits.take(n));
            assert(is_digit(digits[digits.len() - 1]));
        }
    }
}

/// Law: splitting loses nothing: the parts hold no separator, and joined they give
/// the text back.
pub proof fn law_split_then_join(text: Seq<char>, sep: char)
    ensures
        split(text, sep).len() >= 1,
        join(split(text, sep), sep) == text,
        forall|k: int|
            0 <= k < split(text, sep).len() ==> !(#[trigger] split(text, sep)[k]).contains(sep),
    decreases text.len(),
{
    let parts = split(text, sep);
    if text.len() == 0 {
        assert(parts[0] =~= Seq::<char>::empty());
        assert(join(parts, sep) =~= text);
    } else {
        let prior = split(text.drop_last(), sep);
        law_split_then_join(text.drop_last(), sep);
        if text.last() == sep {
            assert(parts.drop_last() =~= prior);
            assert(join(parts, sep) =~= text);
        } else {
            let grown = prior.last().push(text.last());
            assert(parts.drop_last() =~= prior.drop_last());
            assert(text =~= text.drop_last().push(text.last()));
            assert(parts.len() == prior.len() && parts.last() == grown);
            if prior.len() == 1 {
                assert(join(prior, sep) == prior[0]);
                assert(join(parts, sep) == parts[0]);
            } else {
                let head = join(prior.drop_last(), sep).push(sep);
                assert(join(prior, sep) == head + prior.last());
                assert(join(parts, sep) == head + grown);
                assert(head + grown =~= (head + prior.last()).push(text.last()));
            }
            assert forall|k: int| 0 <= k < parts.len() implies !(#[trigger] parts[k]).contains(
                sep,
            ) by {
                assert(!prior[k].contains(sep));
                if k == parts.len() - 1 {
                    assert(parts[k] == grown);
                    if grown.contains(sep) {
                        let i = choose|i: int| 0 <= i < grown.len() && grown[i] == sep;
                        assert(prior[k][i] == sep);
                    }
                } else {
                    assert(parts[k] == prior[k]);
                }
            }
        }
    }
}

} // verus!
