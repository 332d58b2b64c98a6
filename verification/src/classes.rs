//! Class names.

use crate::text::{
    chars_of, cut, lines, split, split_ranges, text_of, trim_range, trimmed, without_cr,
};
use vstd::prelude::*;

verus! {

/// The texts of a list of strings.
pub open spec fn texts(names: Seq<String>) -> Seq<Seq<char>> {
    names.map_values(|name: String| name@)
}

/// The names in a comma-separated list, without the white space around them.
pub open spec fn csv_names(csv: Seq<char>) -> Seq<Seq<char>> {
    split(csv, ',').map_values(|part: Seq<char>| trimmed(part))
}

/// Reads class names from a comma-separated list.
pub fn names_from_csv(csv: &str) -> (res: Vec<String>)
    ensures
        texts(res@) == csv_names(csv@),
{
    let chars = chars_of(csv);
    let parts = split_ranges(&chars, 0, chars.len(), ',');
    assert(chars@.subrange(0, chars@.len() as int) =~= csv@);
    let ghost pieces = split(csv@, ',');
    assert(cut(chars@, parts@) == pieces);
    let mut names: Vec<String> = Vec::new();
    let mut i: usize = 0;
    while i < parts.len()
        invariant
            i <= parts@.len(),
            chars@ == csv@,
            pieces == split(csv@, ','),
            cut(chars@, parts@) == pieces,
            forall|k: int|
                0 <= k < parts@.len() ==> (#[trigger] parts@[k]).0 <= parts@[k].1 <= chars@.len(),
            names@.len() == i,
            forall|k: int| 0 <= k < i ==> (#[trigger] names@[k])@ == trimmed(pieces[k]),
        decreases parts@.len() - i,
    {
        let (from, to) = parts[i];
        let (a, b) = trim_range(&chars, from, to);
        assert(pieces[i as int] == cut(chars@, parts@)[i as int]);
        names.push(text_of(csv, a, b));
        i = i + 1;
    }
    assert(pieces.len() == parts@.len());
    assert(texts(names@) =~= csv_names(csv@));
    names
}

/// Reads class names from a text with one name on each line.
pub fn names_from_lines(text: &str) -> (res: Vec<String>)
    ensures
        texts(res@) == lines(text@),
{
    let chars = chars_of(text);
    let parts = split_ranges(&chars, 0, chars.len(), '\n');
    assert(chars@.subrange(0, chars@.len() as int) =~= text@);
    let ghost pieces = split(text@, '\n');
    assert(cut(chars@, parts@) == pieces);
    assert(pieces.len() == parts@.len());
    let last: usize = parts.len() - 1;
    let mut names: Vec<String> = Vec::new();
    let mut i: usize = 0;
    while i < last
        invariant
            i <= last,
            last == parts@.len() - 1,
            chars@ == text@,
            pieces == split(text@, '\n'),
            cut(chars@, parts@) == pieces,
            forall|k: int|
                0 <= k < parts@.len() ==> (#[trigger] parts@[k]).0 <= parts@[k].1 <= chars@.len(),
            names@.len() == i,
            forall|k: int| 0 <= k < i ==> (#[trigger] names@[k])@ == without_cr(pieces[k]),
        decreases last - i,
    {
        let (from, to) = parts[i];
        assert(pieces[i as int] == cut(chars@, parts@)[i as int]);
        let end: usize = if from < to && chars[to - 1] == '\r' {
            to - 1
        } else {
            to
        };
        proof {
            let piece = pieces[i as int];
            assert(piece == chars@.subrange(from as int, to as int));
            assert(without_cr(piece) =~= chars@.subrange(from as int, end as int));
        }
        names.push(text_of(text, from, end));
        i = i + 1;
    }
    let (from, to) = parts[last];
    assert(pieces[last as int] == cut(chars@, parts@)[last as int]);
    let ghost ended = pieces.drop_last().map_values(|line: Seq<char>| without_cr(line));
    assert(texts(names@) =~= ended);
    if from < to {
        names.push(text_of(text, from, to));
        assert(texts(names@) =~= ended.push(pieces.last()));
    }
    names
}

/// The class names that the user gave: a comma-separated list goes before the text
/// of a file, and without either there are none.
pub fn resolve_classes(csv: Option<&str>, file: Option<&str>) -> (res: Vec<String>)
    ensures
        texts(res@) == (match csv {
            Some(list) => csv_names(list@),
            None => match file {
                Some(text) => lines(text@),
                None => Seq::empty(),
            },
        }),
{
    match csv {
        Some(list) => names_from_csv(list),
        None => match file {
            Some(text) => names_from_lines(text),
            None => {
                let names: Vec<String> = Vec::new();
                assert(texts(names@) =~= Seq::<Seq<char>>::empty());
                names
            },
        },
    }
}

/// The name of a class, or a question mark where it has none.
pub fn class_label(classes: &Vec<String>, class_id: usize) -> (res: String)
    ensures
        class_id < classes@.len() ==> res@ == classes@[class_id as int]@,
        class_id >= classes@.len() ==> res@ == "?"@,
{
    if class_id < classes.len() {
        classes[class_id].clone()
    } else {
        "?".to_owned()
    }
}

} // verus!
