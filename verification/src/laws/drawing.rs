//! What drawing leaves on a frame.

use crate::annotate::{
    annotate_frame, annotated, box_fits, box_ok, box_pixels, class_color, draw_box_rgb, on_box,
    outline, set_px,
};
use crate::postprocess::Detection;
use vstd::arithmetic::div_mod::lemma_fundamental_div_mod_converse;
use vstd::prelude::*;

verus! {

/// Channel `c` of the colour of a class: green, red, blue, yellow, magenta in turn.
pub open spec fn ink(class_id: usize, c: int) -> u8 {
    let n = class_id as int % 5;
    if c == 0 {
        if n == 0 {
            0
        } else if n == 2 {
            50
        } else if n == 4 {
            220
        } else {
            255
        }
    } else if c == 1 {
        if n == 0 {
            255
        } else if n == 2 {
            150
        } else if n == 3 {
            220
        } else {
            50
        }
    } else {
        if n == 1 {
            50
        } else if n == 2 {
            255
        } else if n == 4 {
            220
        } else {
            0
        }
    }
}

/// Law: the colours of the classes.
pub proof fn law_class_color(class_id: usize, res: [u8; 3], c: int)
    requires
        call_ensures(class_color, (class_id,), res),
        0 <= c < 3,
    ensures
        res@[c] == ink(class_id, c),
{
}

/// Law: setting a pixel sets its three bytes, where the buffer holds them, and no others.
pub proof fn law_set_px(buf: &mut [u8], w: u32, x: u32, y: u32, color: [u8; 3], k: int)
    requires
        call_ensures(set_px, (buf, w, x, y, color), ()),
        0 <= k < old(buf)@.len(),
    ensures
        final(buf)@.len() == old(buf)@.len(),
        ({
            let at = 3 * (y * w + x);
            final(buf)@[k] == if at <= k <= at + 2 && at + 2 < old(buf)@.len() {
                color@[k - at]
            } else {
                old(buf)@[k]
            }
        }),
{
    let p = y * w + x;
    assert(0 <= p) by (nonlinear_arith)
        requires
            p == y * w + x,
    ;
    assert(set![p].contains(k / 3) <==> k / 3 == p);
    assert(k / 3 == p <==> 3 * p <= k <= 3 * p + 2);
    assert(k / 3 == p ==> k % 3 == k - 3 * p);
}

/// Pixel (`x`, `y`) lies on a side of one of the two rectangles of a box: the box itself,
/// from its near edges, no less than 0, to its far edges, no more than the last pixel,
/// and the one a pixel further out on each side, within the same limits.
pub open spec fn drawn(w: u32, h: u32, d: Detection, x: int, y: int) -> bool {
    let (l, t) = (
        if d.x > 0 {
            d.x as int
        } else {
            0
        },
        if d.y > 0 {
            d.y as int
        } else {
            0
        },
    );
    let (fx, fy) = (d.x + d.width, d.y + d.height);
    let (r, b) = (
        if fx <= 0 {
            0
        } else if fx >= w {
            w - 1
        } else {
            fx
        },
        if fy <= 0 {
            0
        } else if fy >= h {
            h - 1
        } else {
            fy
        },
    );
    let (l1, t1) = (
        if l == 0 {
            0
        } else {
            l - 1
        },
        if t == 0 {
            0
        } else {
            t - 1
        },
    );
    let (r1, b1) = (
        if r == w - 1 {
            r
        } else {
            r + 1
        },
        if b == h - 1 {
            b
        } else {
            b + 1
        },
    );
    ||| l <= x <= r && (y == t || y == b)
    ||| t <= y <= b && (x == l || x == r)
    ||| l1 <= x <= r1 && (y == t1 || y == b1)
    ||| t1 <= y <= b1 && (x == l1 || x == r1)
}

proof fn lemma_drawn(w: u32, h: u32, d: Detection, x: int, y: int)
    requires
        0 < w,
        0 < h,
    ensures
        on_box(w, h, d, x, y) == drawn(w, h, d, x, y),
{
}

/// Law: drawing a box colours exactly the pixels that lie on one of its two rectangles,
/// those that the buffer holds whole, and leaves every other byte.
pub proof fn law_draw_box_rgb(buf: &mut [u8], w: u32, h: u32, d: &Detection, k: int)
    requires
        0 < w,
        0 < h,
        call_ensures(draw_box_rgb, (buf, w, h, d), ()),
        0 <= k < old(buf)@.len(),
    ensures
        final(buf)@.len() == old(buf)@.len(),
        (exists|x: int, y: int| #[trigger] drawn(w, h, *d, x, y) && k / 3 == y * w + x) && 3 * (k
            / 3) + 2 < old(buf)@.len() ==> final(buf)@[k] == ink(d.class_id, k % 3),
        !(exists|x: int, y: int| #[trigger] drawn(w, h, *d, x, y) && k / 3 == y * w + x) || 3 * (k
            / 3) + 2 >= old(buf)@.len() ==> final(buf)@[k] == old(buf)@[k],
{
    let p = k / 3;
    if exists|x: int, y: int| #[trigger] drawn(w, h, *d, x, y) && p == y * w + x {
        let (x, y) = choose|x: int, y: int| #[trigger] drawn(w, h, *d, x, y) && p == y * w + x;
        lemma_drawn(w, h, *d, x, y);
        assert(on_box(w, h, *d, x, y));
        assert(box_pixels(w, h, *d).contains(p));
    }
    if box_pixels(w, h, *d).contains(p) {
        let (x, y) = choose|x: int, y: int| #[trigger] on_box(w, h, *d, x, y) && p == y * w + x;
        lemma_drawn(w, h, *d, x, y);
        assert(drawn(w, h, *d, x, y));
    }
}

/// Pixel (`x`, `y`) of the frame lies on the rim of a box that starts inside the frame:
/// no further out than a pixel from its edges, and not inside them.
pub open spec fn on_rim(w: u32, h: u32, d: Detection, x: int, y: int) -> bool {
    let far_x = if d.x + d.width < w {
        d.x + d.width
    } else {
        w - 1
    };
    let far_y = if d.y + d.height < h {
        d.y + d.height
    } else {
        h - 1
    };
    &&& d.x - 1 <= x <= far_x + 1
    &&& d.y - 1 <= y <= far_y + 1
    &&& !(d.x < x < far_x && d.y < y < far_y)
}

/// The box starts inside the frame.
pub open spec fn starts_inside(w: u32, h: u32, d: Detection) -> bool {
    0 <= d.x < w && 0 <= d.y < h && 0 <= d.width && 0 <= d.height
}

/// The pixels of a box that starts inside the frame.
proof fn lemma_rim(w: u32, h: u32, d: Detection, x: int, y: int)
    requires
        0 < w <= i32::MAX,
        0 < h <= i32::MAX,
        starts_inside(w, h, d),
        0 <= x < w,
        0 <= y < h,
    ensures
        box_pixels(w, h, d).contains(y * w + x) == on_rim(w, h, d, x, y),
{
    let p = y * w + x;
    assert(on_box(w, h, d, x, y) == on_rim(w, h, d, x, y)) by {
        lemma_drawn(w, h, d, x, y);
    }
    if box_pixels(w, h, d).contains(p) {
        let (bx, by) = choose|bx: int, by: int| #[trigger]
            on_box(w, h, d, bx, by) && p == by * w + bx;
        lemma_drawn(w, h, d, bx, by);
        assert(0 <= bx < w && 0 <= by < h);
        lemma_fundamental_div_mod_converse(p, w as int, by, bx);
        lemma_fundamental_div_mod_converse(p, w as int, y, x);
    }
    if on_rim(w, h, d, x, y) {
        assert(on_box(w, h, d, x, y));
    }
}

/// Law: a box that starts inside a whole frame is drawn as a rim two pixels wide around
/// its edges, in the colour of its class, and nothing else of the frame changes.
pub proof fn law_box_is_a_rim(
    buf: &mut [u8],
    w: u32,
    h: u32,
    d: &Detection,
    x: int,
    y: int,
    c: int,
)
    requires
        0 < w <= i32::MAX,
        0 < h <= i32::MAX,
        old(buf)@.len() == 3 * (w * h),
        starts_inside(w, h, *d),
        call_ensures(draw_box_rgb, (buf, w, h, d), ()),
        0 <= x < w,
        0 <= y < h,
        0 <= c < 3,
    ensures
        ({
            let k = 3 * (y * w + x) + c;
            final(buf)@[k] == if on_rim(w, h, *d, x, y) {
                ink(d.class_id, c)
            } else {
                old(buf)@[k]
            }
        }),
{
    lemma_rim(w, h, *d, x, y);
    lemma_byte(w, h, x, y, c);
}

/// The bytes of a pixel lie in the frame.
proof fn lemma_byte(w: u32, h: u32, x: int, y: int, c: int)
    requires
        0 <= x < w,
        0 <= y < h,
        0 <= c < 3,
    ensures
        ({
            let k = 3 * (y * w + x) + c;
            &&& 0 <= k && 3 * (y * w + x) + 2 < 3 * (w * h)
            &&& k / 3 == y * w + x
            &&& k % 3 == c
        }),
{
    let p = y * w + x;
    assert(0 <= p && p + 1 <= w * h) by (nonlinear_arith)
        requires
            p == y * w + x,
            0 <= x <= w - 1,
            0 <= y <= h - 1,
    ;
}

/// The byte of a pixel of an annotated frame, where box `i` is the last one it lies on.
proof fn lemma_shows(
    frame: Seq<u8>,
    w: u32,
    h: u32,
    dets: Seq<Detection>,
    i: int,
    x: int,
    y: int,
    c: int,
)
    requires
        0 < w <= i32::MAX,
        0 < h <= i32::MAX,
        frame.len() == 3 * (w * h),
        forall|j: int| 0 <= j < dets.len() ==> starts_inside(w, h, #[trigger] dets[j]),
        -1 <= i < dets.len(),
        i >= 0 ==> on_rim(w, h, dets[i], x, y),
        forall|j: int| i < j < dets.len() ==> !on_rim(w, h, #[trigger] dets[j], x, y),
        0 <= x < w,
        0 <= y < h,
        0 <= c < 3,
    ensures
        annotated(frame, w, h, dets).len() == frame.len(),
        annotated(frame, w, h, dets)[3 * (y * w + x) + c] == if i >= 0 {
            ink(dets[i].class_id, c)
        } else {
            frame[3 * (y * w + x) + c]
        },
    decreases dets.len(),
{
    lemma_byte(w, h, x, y, c);
    if dets.len() > 0 {
        let (rest, d) = (dets.drop_last(), dets.last());
        assert(dets[dets.len() - 1] == d);
        lemma_rim(w, h, d, x, y);
        assert forall|j: int| 0 <= j < rest.len() implies starts_inside(w, h, #[trigger] rest[j]) by {
            assert(rest[j] == dets[j]);
        }
        if i < dets.len() - 1 {
            assert forall|j: int| i < j < rest.len() implies !on_rim(
                w,
                h,
                #[trigger] rest[j],
                x,
                y,
            ) by {
                assert(rest[j] == dets[j]);
            }
            lemma_shows(frame, w, h, rest, i, x, y, c);
        } else {
            lemma_annotated_len(frame, w, h, rest);
        }
    }
}

proof fn lemma_annotated_len(frame: Seq<u8>, w: u32, h: u32, dets: Seq<Detection>)
    ensures
        annotated(frame, w, h, dets).len() == frame.len(),
    decreases dets.len(),
{
    if dets.len() > 0 {
        lemma_annotated_len(frame, w, h, dets.drop_last());
    }
}

/// Law: every detection shows.  A pixel on the rim of box `i`, and of no later box, has
/// the colour of the class of detection `i`; a pixel on no rim, for which `i` is -1,
/// keeps its colour.
pub proof fn law_every_detection_shows(
    buf: &mut [u8],
    w: u32,
    h: u32,
    dets: &Vec<Detection>,
    i: int,
    x: int,
    y: int,
    c: int,
)
    requires
        0 < w <= i32::MAX,
        0 < h <= i32::MAX,
        old(buf)@.len() == 3 * (w * h),
        forall|j: int| 0 <= j < dets@.len() ==> starts_inside(w, h, #[trigger] dets@[j]),
        call_ensures(annotate_frame, (buf, w, h, dets), ()),
        -1 <= i < dets@.len(),
        i >= 0 ==> on_rim(w, h, dets@[i], x, y),
        forall|j: int| i < j < dets@.len() ==> !on_rim(w, h, #[trigger] dets@[j], x, y),
        0 <= x < w,
        0 <= y < h,
        0 <= c < 3,
    ensures
        final(buf)@.len() == old(buf)@.len(),
        final(buf)@[3 * (y * w + x) + c] == if i >= 0 {
            ink(dets@[i].class_id, c)
        } else {
            old(buf)@[3 * (y * w + x) + c]
        },
{
    lemma_shows(old(buf)@, w, h, dets@, i, x, y, c);
}

proof fn lemma_annotated_joined(
    frame: Seq<u8>,
    w: u32,
    h: u32,
    a: Seq<Detection>,
    b: Seq<Detection>,
)
    ensures
        annotated(frame, w, h, a + b) == annotated(annotated(frame, w, h, a), w, h, b),
    decreases b.len(),
{
    if b.len() == 0 {
        assert(a + b =~= a);
    } else {
        assert((a + b).drop_last() =~= a + b.drop_last());
        assert((a + b).last() == b.last());
        lemma_annotated_joined(frame, w, h, a, b.drop_last());
    }
}

/// Law: annotating with one list and then with another comes to annotating with both.
pub proof fn law_annotating_in_two_goes(
    one: &mut [u8],
    two: &mut [u8],
    whole: &mut [u8],
    w: u32,
    h: u32,
    a: &Vec<Detection>,
    b: &Vec<Detection>,
    both: &Vec<Detection>,
)
    requires
        both@ == a@ + b@,
        old(whole)@ == old(one)@,
        old(two)@ == final(one)@,
        call_ensures(annotate_frame, (one, w, h, a), ()),
        call_ensures(annotate_frame, (two, w, h, b), ()),
        call_ensures(annotate_frame, (whole, w, h, both), ()),
    ensures
        final(two)@ == final(whole)@,
{
    lemma_annotated_joined(old(one)@, w, h, a@, b@);
}

/// Law: annotating without detections changes nothing.
pub proof fn law_annotating_with_none(buf: &mut [u8], w: u32, h: u32, dets: &Vec<Detection>)
    requires
        dets@.len() == 0,
        call_ensures(annotate_frame, (buf, w, h, dets), ()),
    ensures
        final(buf)@ == old(buf)@,
{
}

/// Law: annotating with a single detection is drawing its box.
pub proof fn law_annotating_with_one_is_drawing(
    one: &mut [u8],
    other: &mut [u8],
    w: u32,
    h: u32,
    dets: &Vec<Detection>,
)
    requires
        dets@.len() == 1,
        old(one)@ == old(other)@,
        call_ensures(annotate_frame, (one, w, h, dets), ()),
        call_ensures(draw_box_rgb, (other, w, h, &dets@[0]), ()),
    ensures
        final(one)@ == final(other)@,
{
    let frame = old(one)@;
    assert(dets@.drop_last() =~= Seq::<Detection>::empty());
    assert(annotated(frame, w, h, dets@.drop_last()) == frame);
}

/// A box that starts inside an ordinary frame can be drawn.
proof fn lemma_box_ok(w: u32, h: u32, d: Detection)
    requires
        0 < w <= 16384,
        0 < h <= 16384,
        starts_inside(w, h, d),
        d.x + d.width <= w,
        d.y + d.height <= h,
    ensures
        box_ok(w, h, d),
{
    assert forall|x: int, y: int| 0 <= x < w && 0 <= y < h implies 0 <= #[trigger] (y * w + x)
        < 16384 * 16384 by {
        assert(0 <= y * w + x < 16384 * 16384) by (nonlinear_arith)
            requires
                0 <= x < w,
                0 <= y < h,
                w <= 16384,
                h <= 16384,
        ;
    }
    let (r0, r1) = (outline(w, h, d, 0), outline(w, h, d, 1));
    assert(0 <= r0.0 <= r0.2 < w && 0 <= r0.1 <= r0.3 < h);
    assert(0 <= r1.0 <= r1.2 < w && 0 <= r1.1 <= r1.3 < h);
    assert(0 <= r0.1 * w + r0.2 < 16384 * 16384);
    assert(0 <= r0.3 * w + r0.2 < 16384 * 16384);
    assert(0 <= r0.3 * w + r0.0 < 16384 * 16384);
    assert(0 <= r1.1 * w + r1.2 < 16384 * 16384);
    assert(0 <= r1.3 * w + r1.2 < 16384 * 16384);
    assert(0 <= r1.3 * w + r1.0 < 16384 * 16384);
}

/// Law: the boxes of detections inside an ordinary frame can be drawn, whatever their
/// class.
pub proof fn law_inner_boxes_can_be_drawn(
    buf: &mut [u8],
    w: u32,
    h: u32,
    dets: &Vec<Detection>,
    i: int,
    res: bool,
)
    requires
        0 < w <= 16384,
        0 < h <= 16384,
        forall|j: int|
            0 <= j < dets@.len() ==> {
                let d = #[trigger] dets@[j];
                starts_inside(w, h, d) && d.x + d.width <= w && d.y + d.height <= h
            },
        0 <= i < dets@.len(),
        call_ensures(box_fits, (w, h, &dets@[i]), res),
    ensures
        res,
        call_requires(draw_box_rgb, (buf, w, h, &dets@[i])),
        call_requires(annotate_frame, (buf, w, h, dets)),
{
    assert forall|j: int| 0 <= j < dets@.len() implies box_ok(w, h, #[trigger] dets@[j]) by {
        lemma_box_ok(w, h, dets@[j]);
    }
}

/// Law: a box is drawn only on a frame that has pixels.
pub proof fn law_no_box_without_pixels(w: u32, h: u32, d: Detection, res: bool)
    requires
        call_ensures(box_fits, (w, h, &d), res),
        w == 0 || h == 0,
    ensures
        !res,
{
}

} // verus!
