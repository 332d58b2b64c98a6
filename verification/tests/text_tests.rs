use rfdetr_ort::classes::{class_label, names_from_csv, names_from_lines, resolve_classes};
use rfdetr_ort::text::{append_decimal, chars_of, is_white_space, parse_u32, split_ranges, text_of};
use rfdetr_ort::video::{
    check_decoded, frame_bytes, parse_probe, progress_due, ProbeError,
};

fn number(text: &str) -> Option<u32> {
    let chars = chars_of(text);
    parse_u32(&chars, 0, chars.len())
}

#[test]
fn white_space_is_that_of_unicode() {
    for u in 0..=0x10ffffu32 {
        if let Some(c) = char::from_u32(u) {
            assert_eq!(is_white_space(c), c.is_whitespace(), "{:x}", u);
        }
    }
}

#[test]
fn numbers_are_read_as_the_standard_library_reads_them() {
    for text in [
        "0", "7", "1920", "+5", "+", "", "-1", "-0", "00012", "4294967295", "4294967296",
        "99999999999999999999999", "1_0", " 1", "1 ", "12a", "++1", "\u{661}",
    ] {
        assert_eq!(number(text), text.parse::<u32>().ok(), "{:?}", text);
    }
}

#[test]
fn numbers_are_written_in_decimal() {
    for n in [0usize, 9, 10, 99, 100, 65536, usize::MAX] {
        let mut out = "n=".to_owned();
        append_decimal(&mut out, n);
        assert_eq!(out, format!("n={}", n));
    }
}

#[test]
fn csv_names_are_trimmed() {
    assert_eq!(names_from_csv("body,head"), vec!["body", "head"]);
    assert_eq!(names_from_csv(" a b ,\u{3000}c\t,,d\n"), vec!["a b", "c", "", "d"]);
    assert_eq!(names_from_csv(""), vec![""]);
    assert_eq!(names_from_csv(","), vec!["", ""]);
}

#[test]
fn lines_are_those_of_the_standard_library() {
    for text in [
        "", "\n", "a", "a\n", "a\nb", "a\r\nb\r\n", "a\r", "a\n\r", "\r\n\r\n", "a\n\nb\n",
        "\u{e9}t\u{e9}\r\n\u{732b}", "a\r\rb\r\r\n",
    ] {
        let expected: Vec<String> = text.lines().map(|l| l.to_owned()).collect();
        assert_eq!(names_from_lines(text), expected, "{:?}", text);
    }
}

#[test]
fn a_list_goes_before_a_file() {
    assert_eq!(resolve_classes(Some("x,y"), Some("a\nb")), vec!["x", "y"]);
    assert_eq!(resolve_classes(None, Some("a\nb")), vec!["a", "b"]);
    assert!(resolve_classes(None, None).is_empty());
}

#[test]
fn a_class_without_a_name_is_a_question_mark() {
    let names = vec!["body".to_owned()];
    assert_eq!(class_label(&names, 0), "body");
    assert_eq!(class_label(&names, 1), "?");
}

#[test]
fn a_probe_gives_size_and_rate() {
    let info = parse_probe("1920,1080,29.97,300\n").unwrap();
    assert_eq!((info.width, info.height, info.fps.as_str()), (1920, 1080, "29.97"));
    let info = parse_probe("  640 , 480 , nan ").unwrap();
    assert_eq!((info.width, info.height, info.fps.as_str()), (640, 480, "nan"));
}

#[test]
fn a_probe_can_fail() {
    assert_eq!(parse_probe("").unwrap_err(), ProbeError::TooFewFields);
    assert_eq!(parse_probe("1,2").unwrap_err(), ProbeError::TooFewFields);
    assert_eq!(parse_probe("x,y,30").unwrap_err(), ProbeError::Width);
    assert_eq!(parse_probe("10,-4,30").unwrap_err(), ProbeError::Height);
}

#[test]
fn frames_and_progress() {
    assert_eq!(frame_bytes(1920, 1080), 6220800);
    assert!(progress_due(50) && progress_due(100) && !progress_due(51));
    assert!(check_decoded(1, "a.mp4").is_ok());
    assert_eq!(check_decoded(0, "a.mp4").unwrap_err(), "No frames decoded from a.mp4");
}

#[test]
fn parts_joined_again_give_the_text() {
    for text in ["", ",", "a", "a,b", ",,x,", "\u{e9},\u{732b}\u{732b},z"] {
        let chars = chars_of(text);
        let parts: Vec<String> = split_ranges(&chars, 0, chars.len(), ',')
            .into_iter()
            .map(|(from, to)| text_of(text, from, to))
            .collect();
        assert_eq!(parts.join(","), text);
        assert!(parts.iter().all(|part| !part.contains(',')));
    }
}
