//! What texts are cut into and read as.

use crate::classes::{
    class_label, csv_names, names_from_csv, names_from_lines, resolve_classes, texts,
};
use crate::text::{
    append_decimal, chars_of, cut, decimal, digits_value, is_white_space, lines, parse_u32, split,
    split_ranges, text_of, trim_end, trim_range, trim_start, trimmed, u32_value, unsigned_digits,
    white_space, without_cr,
};
use crate::video::{
    check_decoded, frame_bytes, parse_probe, probe_field, probe_fields, progress_due, ProbeError,
    VideoInfo,
};
use vstd::prelude::*;

verus! {

/// The code points of white space.
pub open spec fn blank(c: char) -> bool {
    let u = c as u32;
    ||| u == 0x20 || 0x9 <= u <= 0xd || u == 0x85 || u == 0xa0
    ||| u == 0x1680 || 0x2000 <= u <= 0x200a || u == 0x2028 || u == 0x2029
    ||| u == 0x202f || u == 0x205f || u == 0x3000
}

/// Law: the characters that count as white space.
pub proof fn law_is_white_space(c: char, res: bool)
    requires
        call_ensures(is_white_space, (c,), res),
    ensures
        res == blank(c),
{
}

/// `part` is `text` without the white space at both ends: all that is left out is white
/// space, and what is left neither starts nor ends with any.
pub open spec fn stripped(text: Seq<char>, part: Seq<char>) -> bool {
    exists|a: int, b: int| #[trigger] strips(text, part, a, b)
}

/// `part` is `text` from `a` to `b`, with white space alone before and behind it.
pub open spec fn strips(text: Seq<char>, part: Seq<char>, a: int, b: int) -> bool {
    &&& 0 <= a <= b <= text.len()
    &&& part == text.subrange(a, b)
    &&& forall|i: int| 0 <= i < a || b <= i < text.len() ==> blank(#[trigger] text[i])
    &&& a < b ==> !blank(text[a]) && !blank(text[b - 1])
}

proof fn lemma_trim_start(text: Seq<char>) -> (a: int)
    ensures
        0 <= a <= text.len(),
        trim_start(text) == text.skip(a),
        forall|i: int| 0 <= i < a ==> blank(#[trigger] text[i]),
        a < text.len() ==> !blank(text[a]),
    decreases text.len(),
{
    if text.len() > 0 && white_space(text.first()) {
        let rest = text.drop_first();
        let a = lemma_trim_start(rest);
        assert(rest.skip(a) =~= text.skip(a + 1));
        assert forall|i: int| 0 <= i < a + 1 implies blank(#[trigger] text[i]) by {
            if i > 0 {
                assert(rest[i - 1] == text[i]);
            }
        }
        if a < rest.len() {
            assert(rest[a] == text[a + 1]);
        }
        a + 1
    } else {
        assert(text.skip(0) =~= text);
        0
    }
}

proof fn lemma_trim_end(text: Seq<char>) -> (b: int)
    ensures
        0 <= b <= text.len(),
        trim_end(text) == text.take(b),
        forall|i: int| b <= i < text.len() ==> blank(#[trigger] text[i]),
        0 < b ==> !blank(text[b - 1]),
    decreases text.len(),
{
    if text.len() > 0 && white_space(text.last()) {
        let rest = text.drop_last();
        let b = lemma_trim_end(rest);
        assert(rest.take(b) =~= text.take(b));
        assert forall|i: int| b <= i < text.len() implies blank(#[trigger] text[i]) by {
            if i < rest.len() {
                assert(rest[i] == text[i]);
            }
        }
        if 0 < b {
            assert(rest[b - 1] == text[b - 1]);
        }
        b
    } else {
        assert(text.take(text.len() as int) =~= text);
        text.len() as int
    }
}

/// Trimming, as a contract states it, strips.
proof fn lemma_stripped(text: Seq<char>)
    ensures
        stripped(text, trimmed(text)),
{
    let a = lemma_trim_start(text);
    let rest = text.skip(a);
    let n = lemma_trim_end(rest);
    let b = a + n;
    assert(rest.take(n) =~= text.subrange(a, b));
    assert forall|i: int| 0 <= i < a || b <= i < text.len() implies blank(#[trigger] text[i]) by {
        if i >= b {
            assert(rest[i - a] == text[i]);
        }
    }
    if a < b {
        assert(rest[n - 1] == text[b - 1]);
        assert(rest[0] == text[a]);
    }
    assert(strips(text, trimmed(text), a, b));
}

/// Law: a trimmed range leaves out white space alone, and neither starts nor ends with
/// any.
pub proof fn law_trim_range(chars: &Vec<char>, from: usize, to: usize, res: (usize, usize))
    requires
        from <= to <= chars@.len(),
        call_ensures(trim_range, (chars, from, to), res),
    ensures
        from <= res.0 <= res.1 <= to,
        stripped(
            chars@.subrange(from as int, to as int),
            chars@.subrange(res.0 as int, res.1 as int),
        ),
{
    lemma_stripped(chars@.subrange(from as int, to as int));
}

/// `cuts` are the stretches of `text` between its separators, all of them and in order:
/// the first starts at the start, each next one behind the separator that ends the one
/// before it, the last ends at the end, and none holds a separator.
pub open spec fn cut_at(text: Seq<char>, sep: char, cuts: Seq<(int, int)>) -> bool {
    &&& cuts.len() >= 1
    &&& cuts[0].0 == 0
    &&& cuts.last().1 == text.len()
    &&& forall|k: int|
        0 <= k < cuts.len() ==> 0 <= (#[trigger] cuts[k]).0 <= cuts[k].1 <= text.len()
    &&& forall|k: int|
        0 <= k < cuts.len() - 1 ==> text[(#[trigger] cuts[k]).1] == sep && cuts[k + 1].0
            == cuts[k].1 + 1
    &&& forall|k: int, i: int|
        0 <= k < cuts.len() && (#[trigger] cuts[k]).0 <= i < cuts[k].1 ==> #[trigger] text[i] != sep
}

/// Splitting, as a contract states it, cuts.
proof fn lemma_split_cuts(text: Seq<char>, sep: char) -> (cuts: Seq<(int, int)>)
    ensures
        cut_at(text, sep, cuts),
        split(text, sep).len() == cuts.len(),
        forall|k: int|
            0 <= k < cuts.len() ==> #[trigger] split(text, sep)[k] == text.subrange(
                cuts[k].0,
                cuts[k].1,
            ),
    decreases text.len(),
{
    if text.len() == 0 {
        let cuts = seq![(0int, 0int)];
        assert(split(text, sep)[0] =~= text.subrange(0, 0));
        cuts
    } else {
        let rest = text.drop_last();
        let n = rest.len() as int;
        let prior = lemma_split_cuts(rest, sep);
        let parts = split(rest, sep);
        let m = prior.len() - 1;
        let cuts = if text.last() == sep {
            prior.push((n + 1, n + 1))
        } else {
            prior.update(m, (prior[m].0, n + 1))
        };
        assert forall|k: int| 0 <= k < cuts.len() - 1 implies text[(#[trigger] cuts[k]).1] == sep
            && cuts[k + 1].0 == cuts[k].1 + 1 by {
            if k < m {
                assert(rest[prior[k].1] == sep && prior[k + 1].0 == prior[k].1 + 1);
                assert(rest[prior[k].1] == text[prior[k].1]);
            }
        }
        assert forall|k: int, i: int|
            0 <= k < cuts.len() && (#[trigger] cuts[k]).0 <= i < cuts[k].1 implies #[trigger] text[i]
            != sep by {
            if i < n && k < prior.len() {
                assert(prior[k].0 <= i < prior[k].1);
                assert(rest[i] == text[i]);
            }
        }
        assert forall|k: int| 0 <= k < cuts.len() implies #[trigger] split(text, sep)[k]
            == text.subrange(cuts[k].0, cuts[k].1) by {
            if k < m {
                assert(parts[k] == rest.subrange(prior[k].0, prior[k].1));
                assert(rest.subrange(prior[k].0, prior[k].1) =~= text.subrange(
                    cuts[k].0,
                    cuts[k].1,
                ));
            } else if k == m {
                assert(parts[m] == rest.subrange(prior[m].0, prior[m].1));
                assert(split(text, sep)[m] =~= text.subrange(cuts[m].0, cuts[m].1));
            } else {
                assert(split(text, sep)[k] =~= text.subrange(cuts[k].0, cuts[k].1));
            }
        }
        cuts
    }
}

/// Law: splitting cuts a range at every separator and nowhere else.
pub proof fn law_split_ranges(
    chars: &Vec<char>,
    from: usize,
    to: usize,
    sep: char,
    res: Vec<(usize, usize)>,
)
    requires
        from <= to <= chars@.len(),
        call_ensures(split_ranges, (chars, from, to, sep), res),
    ensures
        exists|cuts: Seq<(int, int)>|
            {
                &&& #[trigger] cut_at(chars@.subrange(from as int, to as int), sep, cuts)
                &&& res@.len() == cuts.len()
                &&& forall|k: int|
                    0 <= k < cuts.len() ==> chars@.subrange(
                        (#[trigger] res@[k]).0 as int,
                        res@[k].1 as int,
                    ) == chars@.subrange(from as int, to as int).subrange(cuts[k].0, cuts[k].1)
            },
{
    let text = chars@.subrange(from as int, to as int);
    let cuts = lemma_split_cuts(text, sep);
    assert(cut(chars@, res@) == split(text, sep));
    assert(cut(chars@, res@).len() == res@.len());
    assert forall|k: int| 0 <= k < cuts.len() implies chars@.subrange(
        (#[trigger] res@[k]).0 as int,
        res@[k].1 as int,
    ) == text.subrange(cuts[k].0, cuts[k].1) by {
        assert(cut(chars@, res@)[k] == split(text, sep)[k]);
    }
}

/// Law: the characters of a text, and the text of a range.
pub proof fn law_text_pieces(
    text: &str,
    chars: Vec<char>,
    from: usize,
    to: usize,
    piece: String,
)
    requires
        from <= to <= text@.len(),
        call_ensures(chars_of, (text,), chars),
        call_ensures(text_of, (text, from, to), piece),
    ensures
        chars@ == text@,
        piece@.len() == to - from,
        forall|i: int| 0 <= i < to - from ==> #[trigger] piece@[i] == text@[from + i],
{
}

/// `names` are what a comma-separated list names: one for each stretch between commas,
/// without white space around it.
pub open spec fn listed(csv: Seq<char>, names: Seq<String>, cuts: Seq<(int, int)>) -> bool {
    &&& cut_at(csv, ',', cuts)
    &&& names.len() == cuts.len()
    &&& forall|k: int|
        0 <= k < cuts.len() ==> stripped(
            csv.subrange(cuts[k].0, cuts[k].1),
            (#[trigger] names[k])@,
        )
}

proof fn lemma_listed(csv: Seq<char>, names: Seq<String>) -> (cuts: Seq<(int, int)>)
    requires
        texts(names) == csv_names(csv),
    ensures
        listed(csv, names, cuts),
{
    let cuts = lemma_split_cuts(csv, ',');
    let parts = split(csv, ',');
    assert(csv_names(csv).len() == parts.len() && texts(names).len() == names.len());
    assert forall|k: int| 0 <= k < cuts.len() implies stripped(
        csv.subrange(cuts[k].0, cuts[k].1),
        (#[trigger] names[k])@,
    ) by {
        assert(texts(names)[k] == csv_names(csv)[k]);
        assert(csv_names(csv)[k] == trimmed(parts[k]));
        lemma_stripped(parts[k]);
    }
    cuts
}

/// Law: a comma-separated list names what stands between its commas, trimmed.
pub proof fn law_names_from_csv(csv: &str, res: Vec<String>)
    requires
        call_ensures(names_from_csv, (csv,), res),
    ensures
        exists|cuts: Seq<(int, int)>| #[trigger] listed(csv@, res@, cuts),
{
    let cuts = lemma_listed(csv@, res@);
}

/// `names` are the lines of a text: one for each stretch that a line feed ends, without
/// a carriage return at its end, and what is left behind the last line feed, if
/// anything, as it is.
pub open spec fn lined(text: Seq<char>, names: Seq<String>, cuts: Seq<(int, int)>) -> bool {
    let last = cuts.len() - 1;
    &&& cut_at(text, '\n', cuts)
    &&& names.len() == if cuts[last].0 < cuts[last].1 {
        last + 1
    } else {
        last
    }
    &&& forall|k: int|
        0 <= k < names.len() ==> {
            let (a, b) = cuts[k];
            (#[trigger] names[k])@ == if k < last && a < b && text[b - 1] == '\r' {
                text.subrange(a, b - 1)
            } else {
                text.subrange(a, b)
            }
        }
}

proof fn lemma_lined(text: Seq<char>, names: Seq<String>) -> (cuts: Seq<(int, int)>)
    requires
        texts(names) == lines(text),
    ensures
        lined(text, names, cuts),
{
    let cuts = lemma_split_cuts(text, '\n');
    let parts = split(text, '\n');
    let last = cuts.len() - 1;
    assert(parts[last] == text.subrange(cuts[last].0, cuts[last].1));
    assert(texts(names).len() == names.len());
    assert forall|k: int| 0 <= k < names.len() implies {
        let (a, b) = cuts[k];
        (#[trigger] names[k])@ == if k < last && a < b && text[b - 1] == '\r' {
            text.subrange(a, b - 1)
        } else {
            text.subrange(a, b)
        }
    } by {
        let (a, b) = cuts[k];
        assert(texts(names)[k] == names[k]@);
        assert(parts[k] == text.subrange(a, b));
        if k < last {
            assert(lines(text)[k] == without_cr(parts[k]));
            if a < b {
                assert(parts[k].last() == text[b - 1]);
                assert(parts[k].drop_last() =~= text.subrange(a, b - 1));
            }
        }
    }
    cuts
}

/// Law: the lines of a text are what its line feeds end, and what is left behind them.
pub proof fn law_names_from_lines(text: &str, res: Vec<String>)
    requires
        call_ensures(names_from_lines, (text,), res),
    ensures
        exists|cuts: Seq<(int, int)>| #[trigger] lined(text@, res@, cuts),
{
    let cuts = lemma_lined(text@, res@);
}

/// Law: a list goes before a file, a file before nothing.
pub proof fn law_resolve_classes(csv: Option<&str>, file: Option<&str>, res: Vec<String>)
    requires
        call_ensures(resolve_classes, (csv, file), res),
    ensures
        csv is Some ==> exists|cuts: Seq<(int, int)>| #[trigger] listed(csv->0@, res@, cuts),
        csv is None && file is Some ==> exists|cuts: Seq<(int, int)>| #[trigger]
            lined(file->0@, res@, cuts),
        csv is None && file is None ==> res@.len() == 0,
{
    assert(texts(res@).len() == res@.len());
    if csv is Some {
        let cuts = lemma_listed(csv->0@, res@);
    } else if file is Some {
        let cuts = lemma_lined(file->0@, res@);
    }
}

/// Law: a class is called by its name, and one without a name by a question mark.
pub proof fn law_class_label(classes: &Vec<String>, class_id: usize, res: String)
    requires
        call_ensures(class_label, (classes, class_id), res),
    ensures
        class_id < classes@.len() ==> res@ == classes@[class_id as int]@,
        class_id >= classes@.len() ==> res@ =~= seq!['?'],
{
    reveal_strlit("?");
}

/// The number that decimal digits stand for, the first of them the greatest.
pub open spec fn numeral(digits: Seq<char>) -> int {
    digits.fold_left(0int, |n: int, c: char| 10 * n + (c as u32 - 48))
}

/// All characters are decimal digits.
pub open spec fn all_digits(digits: Seq<char>) -> bool {
    forall|i: int| 0 <= i < digits.len() ==> 48 <= #[trigger] digits[i] as u32 <= 57
}

proof fn lemma_numeral(digits: Seq<char>)
    ensures
        digits_value(digits) == numeral(digits),
    decreases digits.len(),
{
    reveal(Seq::fold_left);
    if digits.len() > 0 {
        lemma_numeral(digits.drop_last());
    }
}

proof fn lemma_not_negative(digits: Seq<char>)
    requires
        all_digits(digits),
    ensures
        digits_value(digits) >= 0,
    decreases digits.len(),
{
    if digits.len() > 0 {
        let rest = digits.drop_last();
        assert forall|i: int| 0 <= i < rest.len() implies 48 <= #[trigger] rest[i] as u32 <= 57 by {
            assert(rest[i] == digits[i]);
        }
        lemma_not_negative(rest);
        assert(digits[digits.len() - 1] == digits.last());
    }
}

proof fn lemma_decimal(n: nat)
    ensures
        decimal(n).len() > 0,
        all_digits(decimal(n)),
        numeral(decimal(n)) == n,
        n > 0 ==> decimal(n)[0] != '0',
    decreases n,
{
    reveal(Seq::fold_left);
    let d = decimal(n);
    let f = |n: int, c: char| 10 * n + (c as u32 - 48);
    if n < 10 {
        assert(d.drop_last() =~= Seq::<char>::empty());
        assert(d.drop_last().fold_left(0int, f) == 0);
    } else {
        lemma_decimal(n / 10);
        assert(d.drop_last() =~= decimal(n / 10));
    }
}

/// Law: a number is written in decimal: digits alone, without zeros in front, that stand
/// for the number.
pub proof fn law_append_decimal(out: &mut String, n: usize)
    requires
        call_ensures(append_decimal, (out, n), ()),
    ensures
        exists|digits: Seq<char>|
            {
                &&& #[trigger] all_digits(digits)
                &&& final(out)@ == old(out)@ + digits
                &&& digits.len() > 0 && numeral(digits) == n
                &&& n > 0 ==> digits[0] != '0'
                &&& n == 0 ==> digits.len() == 1
            },
{
    lemma_decimal(n as nat);
    assert(all_digits(decimal(n as nat)));
}

/// Law: the texts of numbers in messages are decimal.
pub proof fn law_decimal(n: nat)
    ensures
        decimal(n).len() > 0,
        all_digits(decimal(n)),
        numeral(decimal(n)) == n,
        n > 0 ==> decimal(n)[0] != '0',
        n == 0 ==> decimal(n).len() == 1,
{
    lemma_decimal(n);
}

/// `text` stands for `v`: decimal digits, at least one, perhaps behind a plus sign.
pub open spec fn stands_for(text: Seq<char>, v: int) -> bool {
    let digits = if text.len() > 0 && text[0] == '+' {
        text.skip(1)
    } else {
        text
    };
    digits.len() > 0 && all_digits(digits) && numeral(digits) == v
}

proof fn lemma_stands_for(text: Seq<char>, v: u32)
    ensures
        u32_value(text) == Some(v) <==> stands_for(text, v as int),
{
    let digits = unsigned_digits(text);
    assert(text.len() > 0 ==> text.skip(1) =~= text.drop_first());
    lemma_numeral(digits);
    if all_digits(digits) {
        assert forall|i: int| 0 <= i < digits.len() implies crate::text::is_digit(
            #[trigger] digits[i],
        ) by {}
    }
    if forall|i: int| 0 <= i < digits.len() ==> crate::text::is_digit(#[trigger] digits[i]) {
        assert forall|i: int| 0 <= i < digits.len() implies 48 <= #[trigger] digits[i] as u32
            <= 57 by {
            assert(crate::text::is_digit(digits[i]));
        }
        lemma_not_negative(digits);
    }
}

/// Law: a text is read as the number that it stands for, and as none where it stands for
/// no number of 32 bits.
pub proof fn law_parse_u32(chars: &Vec<char>, from: usize, to: usize, res: Option<u32>, v: u32)
    requires
        from <= to <= chars@.len(),
        call_ensures(parse_u32, (chars, from, to), res),
    ensures
        res == Some(v) <==> stands_for(chars@.subrange(from as int, to as int), v as int),
{
    lemma_stands_for(chars@.subrange(from as int, to as int), v);
}

/// The output of a probe, trimmed, is cut at its commas.
pub open spec fn probed(text: Seq<char>, body: Seq<char>, cuts: Seq<(int, int)>) -> bool {
    stripped(text, body) && cut_at(body, ',', cuts)
}

/// Law: a probe is read by its first three fields, each trimmed: a width, a height, and
/// the frame rate as it stands.  Too few fields are told before a wrong width, and that
/// before a wrong height.
pub proof fn law_parse_probe(text: &str, res: Result<VideoInfo, ProbeError>)
    requires
        call_ensures(parse_probe, (text,), res),
    ensures
        exists|body: Seq<char>, cuts: Seq<(int, int)>|
            {
                &&& #[trigger] probed(text@, body, cuts)
                &&& cuts.len() < 3 ==> res == Err::<VideoInfo, ProbeError>(ProbeError::TooFewFields)
                &&& cuts.len() >= 3 ==> exists|a: Seq<char>, b: Seq<char>, c: Seq<char>|
                    {
                        &&& #[trigger] stripped(body.subrange(cuts[0].0, cuts[0].1), a)
                        &&& #[trigger] stripped(body.subrange(cuts[1].0, cuts[1].1), b)
                        &&& #[trigger] stripped(body.subrange(cuts[2].0, cuts[2].1), c)
                        &&& reads_probe(a, b, c, res)
                    }
            },
{
    let body = trimmed(text@);
    lemma_stripped(text@);
    let cuts = lemma_split_cuts(body, ',');
    assert(probed(text@, body, cuts));
    assert(probe_fields(text@) == cuts.len());
    if cuts.len() >= 3 {
        let (a, b, c) = (probe_field(text@, 0), probe_field(text@, 1), probe_field(text@, 2));
        assert(split(body, ',')[0] == body.subrange(cuts[0].0, cuts[0].1));
        assert(split(body, ',')[1] == body.subrange(cuts[1].0, cuts[1].1));
        assert(split(body, ',')[2] == body.subrange(cuts[2].0, cuts[2].1));
        lemma_stripped(body.subrange(cuts[0].0, cuts[0].1));
        lemma_stripped(body.subrange(cuts[1].0, cuts[1].1));
        lemma_stripped(body.subrange(cuts[2].0, cuts[2].1));
        assert forall|v: u32| #[trigger] stands_for(a, v as int) <==> u32_value(a) == Some(v) by {
            lemma_stands_for(a, v);
        }
        assert forall|v: u32| #[trigger] stands_for(b, v as int) <==> u32_value(b) == Some(v) by {
            lemma_stands_for(b, v);
        }
        if u32_value(a) is Some {
            assert(stands_for(a, u32_value(a)->0 as int));
        }
        if u32_value(b) is Some {
            assert(stands_for(b, u32_value(b)->0 as int));
        }
        assert(reads_probe(a, b, c, res));
    }
}

/// `res` is what the fields `a`, `b` and `c` of a probe come to.
pub open spec fn reads_probe(
    a: Seq<char>,
    b: Seq<char>,
    c: Seq<char>,
    res: Result<VideoInfo, ProbeError>,
) -> bool {
    if forall|v: u32| !#[trigger] stands_for(a, v as int) {
        res == Err::<VideoInfo, ProbeError>(ProbeError::Width)
    } else if forall|v: u32| !#[trigger] stands_for(b, v as int) {
        res == Err::<VideoInfo, ProbeError>(ProbeError::Height)
    } else {
        &&& res is Ok
        &&& stands_for(a, res->Ok_0.width as int)
        &&& stands_for(b, res->Ok_0.height as int)
        &&& res->Ok_0.fps@ == c
    }
}

/// Law: a frame has three bytes a pixel; progress shows after every fifty frames; and a
/// video without frames is reported by its path.
pub proof fn law_video_frames(
    w: u32,
    h: u32,
    bytes: usize,
    count: u64,
    due: bool,
    path: &str,
    res: Result<(), String>,
)
    requires
        call_ensures(frame_bytes, (w, h), bytes),
        call_ensures(progress_due, (count,), due),
        call_ensures(check_decoded, (count, path), res),
    ensures
        bytes == 3 * (w * h),
        due <==> count % 50 == 0,
        res is Ok <==> count > 0,
        res is Err ==> res->Err_0@ == "No frames decoded from "@ + path@,
{
    assert(w * h * 3 == 3 * (w * h));
}

} // verus!
