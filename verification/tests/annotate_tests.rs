use rfdetr_ort::annotate::{annotate_frame, box_fits, class_color, draw_box_rgb, set_px};
use rfdetr_ort::float_bits::F32;
use rfdetr_ort::postprocess::Detection;

fn det(x: i32, y: i32, width: i32, height: i32, class_id: usize) -> Detection {
    Detection { x, y, width, height, class_id, confidence: F32 { bits: 0 } }
}

fn map(buf: &[u8], w: usize) -> Vec<String> {
    buf.chunks_exact(3 * w)
        .map(|row| row.chunks_exact(3).map(|p| if p == [0, 0, 0] { '.' } else { '#' }).collect())
        .collect()
}

#[test]
fn a_pixel_is_set_in_its_row() {
    let mut buf = vec![0u8; 12];
    set_px(&mut buf, 2, 1, 1, [9, 8, 7]);
    assert_eq!(buf, vec![0, 0, 0, 0, 0, 0, 0, 0, 0, 9, 8, 7]);
}

#[test]
fn a_pixel_beyond_the_buffer_is_left_out() {
    let mut buf = vec![0u8; 11];
    set_px(&mut buf, 2, 1, 1, [9, 8, 7]);
    set_px(&mut buf, 2, 0, 5, [9, 8, 7]);
    assert_eq!(buf, vec![0; 11]);
}

#[test]
fn classes_take_turns_with_five_colours() {
    assert_eq!(class_color(0), [0, 255, 0]);
    assert_eq!(class_color(1), [255, 50, 50]);
    assert_eq!(class_color(2), [50, 150, 255]);
    assert_eq!(class_color(3), [255, 220, 0]);
    assert_eq!(class_color(4), [220, 50, 220]);
    assert_eq!(class_color(7), class_color(2));
}

#[test]
fn a_box_is_two_pixels_thick() {
    let mut buf = vec![0u8; 3 * 9 * 7];
    draw_box_rgb(&mut buf, 9, 7, &det(2, 2, 4, 2, 0));
    assert_eq!(
        map(&buf, 9),
        vec![
            ".........",
            ".#######.",
            ".#######.",
            ".##...##.",
            ".#######.",
            ".#######.",
            ".........",
        ]
    );
    assert_eq!(buf[3 * (9 + 1)..3 * (9 + 2)], [0, 255, 0]);
}

#[test]
fn a_box_is_kept_inside_the_frame() {
    let mut buf = vec![0u8; 3 * 6 * 5];
    draw_box_rgb(&mut buf, 6, 5, &det(-3, -3, 100, 100, 1));
    assert_eq!(map(&buf, 6), vec!["######", "#....#", "#....#", "#....#", "######"]);
}

#[test]
fn later_boxes_cover_earlier_ones() {
    let mut buf = vec![0u8; 3 * 8 * 8];
    let dets = vec![det(1, 1, 5, 5, 0), det(1, 1, 5, 5, 2)];
    assert!(dets.iter().all(|d| box_fits(8, 8, d)));
    annotate_frame(&mut buf, 8, 8, &dets);
    assert_eq!(buf[..3], [50, 150, 255]);
    let mut again = vec![0u8; 3 * 8 * 8];
    annotate_frame(&mut again, 8, 8, &vec![]);
    assert_eq!(again, vec![0u8; 3 * 8 * 8]);
}

#[test]
fn boxes_that_cannot_be_drawn() {
    assert!(box_fits(8, 8, &det(0, 0, 8, 8, 0)));
    assert!(!box_fits(0, 8, &det(0, 0, 1, 1, 0)));
    assert!(!box_fits(8, 0, &det(0, 0, 1, 1, 0)));
    assert!(!box_fits(8, 8, &det(i32::MAX, 0, 1, 1, 0)));
    assert!(!box_fits(8, 8, &det(0, i32::MIN, 1, -1, 0)));
    assert!(!box_fits(8, 8, &det(0, i32::MAX - 1, 1, 1, 0)));
    assert!(box_fits(8, 8, &det(i32::MAX - 1, 3, 1, 1, 0)));
}

#[test]
fn a_box_right_of_the_frame_spills_into_the_next_row() {
    let mut buf = vec![0u8; 3 * 4 * 4];
    draw_box_rgb(&mut buf, 4, 4, &det(6, 1, 0, 0, 0));
    assert_eq!(map(&buf, 4), vec!["...#", ".#.#", ".###", ".#.."]);
}
