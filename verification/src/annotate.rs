//! Drawing boxes on packed RGB frames.

use crate::postprocess::Detection;
use vstd::prelude::*;

verus! {

/// The colour of a class: green, red, blue, yellow or magenta in turn.
pub open spec fn palette(class_id: int) -> Seq<u8> {
    let i = class_id % 5;
    if i == 0 {
        seq![0u8, 255u8, 0u8]
    } else if i == 1 {
        seq![255u8, 50u8, 50u8]
    } else if i == 2 {
        seq![50u8, 150u8, 255u8]
    } else if i == 3 {
        seq![255u8, 220u8, 0u8]
    } else {
        seq![220u8, 50u8, 220u8]
    }
}

/// The colour of a class.
pub fn class_color(class_id: usize) -> (res: [u8; 3])
    ensures
        res@ == palette(class_id as int),
{
    let i: usize = class_id % 5;
    let res: [u8; 3] = if i == 0 {
        [0, 255, 0]
    } else if i == 1 {
        [255, 50, 50]
    } else if i == 2 {
        [50, 150, 255]
    } else if i == 3 {
        [255, 220, 0]
    } else {
        [220, 50, 220]
    };
    assert(res@ =~= palette(class_id as int));
    res
}

/// `buf` with the pixels in `pixels` set to `color`; a pixel that the buffer does
/// not hold whole is left alone.
pub open spec fn painted(buf: Seq<u8>, pixels: Set<int>, color: Seq<u8>) -> Seq<u8> {
    Seq::new(
        buf.len(),
        |k: int|
            if pixels.contains(k / 3) && 3 * (k / 3) + 2 < buf.len() {
                color[k % 3]
            } else {
                buf[k]
            },
    )
}

/// A pixel number whose byte offset can be computed.
pub open spec fn addressable(pixel: int) -> bool {
    pixel <= u32::MAX && 3 * pixel + 2 <= usize::MAX
}

/// Painting pixels one after the other paints all of them.
proof fn lemma_painted_more(buf: Seq<u8>, pixels: Set<int>, p: int, color: Seq<u8>)
    ensures
        painted(painted(buf, pixels, color), set![p], color) == painted(
            buf,
            pixels.insert(p),
            color,
        ),
{
    assert(painted(painted(buf, pixels, color), set![p], color) =~= painted(
        buf,
        pixels.insert(p),
        color,
    ));
}

/// Sets one pixel of a frame of width `w`; one beyond the end of the buffer is
/// left out.
pub fn set_px(buf: &mut [u8], w: u32, x: u32, y: u32, color: [u8; 3])
    requires
        addressable(y * w + x),
    ensures
        final(buf)@ == painted(old(buf)@, set![y * w + x], color@),
{
    proof {
        assert(0 <= y * w) by (nonlinear_arith);
    }
    let idx: usize = (y * w + x) as usize * 3;
    let ghost before = buf@;
    if idx + 2 < buf.len() {
        buf[idx] = color[0];
        buf[idx + 1] = color[1];
        buf[idx + 2] = color[2];
    }
    assert(buf@ =~= painted(before, set![y * w + x], color@));
}

/// The rectangle of a box at distance `t` from its edge: left, top, right and bottom
/// pixel, kept inside the frame to the left and top by zero and to the right and
/// bottom by the last pixel.
pub open spec fn outline(w: u32, h: u32, d: Detection, t: int) -> (int, int, int, int) {
    let left = if d.x < 0 {
        0
    } else {
        d.x as int
    };
    let top = if d.y < 0 {
        0
    } else {
        d.y as int
    };
    let right = last_pixel(d.x + d.width, w as int);
    let bottom = last_pixel(d.y + d.height, h as int);
    (
        if left < t {
            0
        } else {
            left - t
        },
        if top < t {
            0
        } else {
            top - t
        },
        if right + t < w - 1 {
            right + t
        } else {
            w - 1
        },
        if bottom + t < h - 1 {
            bottom + t
        } else {
            h - 1
        },
    )
}

/// `edge` kept between the first and the last pixel of a side.
pub open spec fn last_pixel(edge: int, side: int) -> int {
    let inner = if edge < side - 1 {
        edge
    } else {
        side - 1
    };
    if inner < 0 {
        0
    } else {
        inner
    }
}

/// Pixel (`x`, `y`) lies on the two horizontal sides of a rectangle.
pub open spec fn on_rows(r: (int, int, int, int), x: int, y: int) -> bool {
    r.0 <= x <= r.2 && (y == r.1 || y == r.3)
}

/// Pixel (`x`, `y`) lies on the two vertical sides of a rectangle.
pub open spec fn on_columns(r: (int, int, int, int), x: int, y: int) -> bool {
    r.1 <= y <= r.3 && (x == r.0 || x == r.2)
}

/// Pixel (`x`, `y`) lies on a side of a rectangle.
pub open spec fn on_sides(r: (int, int, int, int), x: int, y: int) -> bool {
    on_rows(r, x, y) || on_columns(r, x, y)
}

/// Pixel (`x`, `y`) is drawn for a box: it lies on the sides of the rectangle itself
/// or of the one that surrounds it.
pub open spec fn on_box(w: u32, h: u32, d: Detection, x: int, y: int) -> bool {
    on_sides(outline(w, h, d, 0), x, y) || on_sides(outline(w, h, d, 1), x, y)
}

/// The numbers of the pixels that are drawn for a box.
pub open spec fn box_pixels(w: u32, h: u32, d: Detection) -> Set<int> {
    Set::new(|p: int| exists|x: int, y: int| #[trigger] on_box(w, h, d, x, y) && p == y * w + x)
}

/// Every pixel on the sides of a rectangle can be addressed.
pub open spec fn rectangle_ok(w: u32, r: (int, int, int, int)) -> bool {
    &&& r.0 <= r.2 ==> addressable(r.1 * w + r.2) && addressable(r.3 * w + r.2)
    &&& r.1 <= r.3 ==> addressable(r.3 * w + r.0) && addressable(r.3 * w + r.2)
}

/// The box can be drawn on a frame of `w` by `h` pixels: the frame has pixels, the
/// far edges of the box are numbers, and each of its pixels can be addressed.
pub open spec fn box_ok(w: u32, h: u32, d: Detection) -> bool {
    &&& 0 < w <= i32::MAX
    &&& 0 < h <= i32::MAX
    &&& i32::MIN <= d.x + d.width <= i32::MAX
    &&& i32::MIN <= d.y + d.height <= i32::MAX
    &&& rectangle_ok(w, outline(w, h, d, 0))
    &&& rectangle_ok(w, outline(w, h, d, 1))
}

/// The pixels on the horizontal sides of a rectangle, up to column `end`.
spec fn rows_hit(w: u32, r: (int, int, int, int), end: int, p: int) -> bool {
    exists|x: int, y: int| #[trigger] on_rows(r, x, y) && x < end && p == y * w + x
}

/// The pixels on the vertical sides of a rectangle, up to row `end`.
spec fn columns_hit(w: u32, r: (int, int, int, int), end: int, p: int) -> bool {
    exists|x: int, y: int| #[trigger] on_columns(r, x, y) && y < end && p == y * w + x
}

/// Draws the sides of the rectangle with corners (`x1`, `y1`) and (`x2`, `y2`).
fn draw_rectangle(
    buf: &mut [u8],
    w: u32,
    x1: u32,
    y1: u32,
    x2: u32,
    y2: u32,
    color: [u8; 3],
    Ghost(first): Ghost<Seq<u8>>,
    Ghost(done): Ghost<Set<int>>,
)
    requires
        x2 < i32::MAX,
        y2 < i32::MAX,
        rectangle_ok(w, (x1 as int, y1 as int, x2 as int, y2 as int)),
        old(buf)@ == painted(first, done, color@),
    ensures
        ({
            let r = (x1 as int, y1 as int, x2 as int, y2 as int);
            final(buf)@ == painted(
                first,
                Set::new(
                    |p: int|
                        done.contains(p) || exists|x: int, y: int| #[trigger] on_sides(r, x, y) && p == y * w + x,
                ),
                color@,
            )
        }),
{
    let ghost r = (x1 as int, y1 as int, x2 as int, y2 as int);
    let mut x: u32 = x1;
    let ghost mut s = done;
    while x <= x2
        invariant
            x1 <= x,
            x <= x2 || x == x2 + 1 || x == x1,
            x2 < i32::MAX,
            r == (x1 as int, y1 as int, x2 as int, y2 as int),
            rectangle_ok(w, r),
            buf@ == painted(first, s, color@),
            forall|p: int| #[trigger]
                s.contains(p) <==> done.contains(p) || rows_hit(w, r, x as int, p),
        decreases x2 + 1 - x,
    {
        proof {
            assert(y1 * w + x <= y1 * w + x2);
            assert(y2 * w + x <= y2 * w + x2);
        }
        set_px(buf, w, x, y1, color);
        proof {
            lemma_painted_more(first, s, y1 * w + x, color@);
            s = s.insert(y1 * w + x);
        }
        set_px(buf, w, x, y2, color);
        proof {
            lemma_painted_more(first, s, y2 * w + x, color@);
            s = s.insert(y2 * w + x);
            assert(on_rows(r, x as int, y1 as int));
            assert(on_rows(r, x as int, y2 as int));
            assert forall|p: int| #[trigger]
                s.contains(p) <==> done.contains(p) || rows_hit(w, r, x + 1, p) by {
                if rows_hit(w, r, x + 1, p) {
                    let (px, py) = choose|px: int, py: int| #[trigger]
                        on_rows(r, px, py) && px < x + 1 && p == py * w + px;
                    if px < x {
                        assert(rows_hit(w, r, x as int, p));
                    }
                }
                if rows_hit(w, r, x as int, p) {
                    let (px, py) = choose|px: int, py: int| #[trigger]
                        on_rows(r, px, py) && px < x && p == py * w + px;
                    assert(on_rows(r, px, py) && px < x + 1);
                }
            }
        }
        x = x + 1;
    }
    let ghost rows = s;
    let mut y: u32 = y1;
    while y <= y2
        invariant
            y1 <= y,
            y2 < i32::MAX,
            r == (x1 as int, y1 as int, x2 as int, y2 as int),
            rectangle_ok(w, r),
            buf@ == painted(first, s, color@),
            forall|p: int| #[trigger]
                s.contains(p) <==> rows.contains(p) || columns_hit(w, r, y as int, p),
        decreases y2 + 1 - y,
    {
        proof {
            assert(y * w <= y2 * w) by (nonlinear_arith)
                requires
                    y <= y2,
            ;
        }
        set_px(buf, w, x1, y, color);
        proof {
            lemma_painted_more(first, s, y * w + x1, color@);
            s = s.insert(y * w + x1);
        }
        set_px(buf, w, x2, y, color);
        proof {
            lemma_painted_more(first, s, y * w + x2, color@);
            s = s.insert(y * w + x2);
            assert(on_columns(r, x1 as int, y as int));
            assert(on_columns(r, x2 as int, y as int));
            assert forall|p: int| #[trigger]
                s.contains(p) <==> rows.contains(p) || columns_hit(w, r, y + 1, p) by {
                if columns_hit(w, r, y + 1, p) {
                    let (px, py) = choose|px: int, py: int| #[trigger]
                        on_columns(r, px, py) && py < y + 1 && p == py * w + px;
                    if py < y {
                        assert(columns_hit(w, r, y as int, p));
                    }
                }
                if columns_hit(w, r, y as int, p) {
                    let (px, py) = choose|px: int, py: int| #[trigger]
                        on_columns(r, px, py) && py < y && p == py * w + px;
                    assert(on_columns(r, px, py) && py < y + 1);
                }
            }
        }
        y = y + 1;
    }
    proof {
        let all = Set::new(
            |p: int|
                done.contains(p) || exists|x: int, y: int| #[trigger] on_sides(r, x, y) && p == y * w + x,
        );
        assert forall|p: int| s.contains(p) <==> #[trigger] all.contains(p) by {
            if rows_hit(w, r, x as int, p) {
                let (px, py) = choose|px: int, py: int| #[trigger]
                    on_rows(r, px, py) && px < x && p == py * w + px;
                assert(on_sides(r, px, py));
            }
            if columns_hit(w, r, y as int, p) {
                let (px, py) = choose|px: int, py: int| #[trigger]
                    on_columns(r, px, py) && py < y && p == py * w + px;
                assert(on_sides(r, px, py));
            }
            if all.contains(p) && !done.contains(p) {
                let (px, py) = choose|px: int, py: int| #[trigger] on_sides(r, px, py) && p == py * w + px;
                if on_rows(r, px, py) {
                    assert(on_rows(r, px, py) && px < x);
                    assert(rows_hit(w, r, x as int, p));
                } else {
                    assert(on_columns(r, px, py) && py < y);
                    assert(columns_hit(w, r, y as int, p));
                }
            }
        }
        assert(s =~= all);
    }
}

/// The larger of `v` and zero.
fn not_negative(v: i32) -> (res: u32)
    ensures
        res == (if v < 0 {
            0
        } else {
            v as int
        }),
{
    if v < 0 {
        0
    } else {
        v as u32
    }
}

fn far_pixel(edge: i32, side: u32) -> (res: u32)
    requires
        0 < side <= i32::MAX,
    ensures
        res == last_pixel(edge as int, side as int),
{
    let last: i32 = side as i32 - 1;
    not_negative(
        if edge < last {
            edge
        } else {
            last
        },
    )
}

/// The rectangle of a box at distance `t`.
fn outline_at(w: u32, h: u32, d: &Detection, t: u32) -> (res: (u32, u32, u32, u32))
    requires
        0 < w <= i32::MAX,
        0 < h <= i32::MAX,
        t <= 1,
        i32::MIN <= d.x + d.width <= i32::MAX,
        i32::MIN <= d.y + d.height <= i32::MAX,
    ensures
        (res.0 as int, res.1 as int, res.2 as int, res.3 as int) == outline(w, h, *d, t as int),
        res.2 < w,
        res.3 < h,
{
    let (x1, y1) = (not_negative(d.x), not_negative(d.y));
    let x2 = far_pixel(d.x + d.width, w);
    let y2 = far_pixel(d.y + d.height, h);
    (
        if x1 < t {
            0
        } else {
            x1 - t
        },
        if y1 < t {
            0
        } else {
            y1 - t
        },
        if x2 + t < w - 1 {
            x2 + t
        } else {
            w - 1
        },
        if y2 + t < h - 1 {
            y2 + t
        } else {
            h - 1
        },
    )
}

/// Draws the box of a detection on a packed RGB frame, two pixels thick and in the
/// colour of its class.
pub fn draw_box_rgb(buf: &mut [u8], w: u32, h: u32, d: &Detection)
    requires
        box_ok(w, h, *d),
    ensures
        final(buf)@ == painted(old(buf)@, box_pixels(w, h, *d), palette(d.class_id as int)),
{
    let color = class_color(d.class_id);
    let ghost first = buf@;
    let ghost none = Set::<int>::empty();
    assert(buf@ =~= painted(first, none, color@));
    let (x1, y1, x2, y2) = outline_at(w, h, d, 0);
    let ghost inner = (x1 as int, y1 as int, x2 as int, y2 as int);
    draw_rectangle(buf, w, x1, y1, x2, y2, color, Ghost(first), Ghost(none));
    let ghost half = Set::new(
        |p: int|
            none.contains(p) || exists|x: int, y: int| #[trigger] on_sides(inner, x, y) && p == y * w + x,
    );
    let (x1, y1, x2, y2) = outline_at(w, h, d, 1);
    let ghost outer = (x1 as int, y1 as int, x2 as int, y2 as int);
    draw_rectangle(buf, w, x1, y1, x2, y2, color, Ghost(first), Ghost(half));
    proof {
        let all = Set::new(
            |p: int|
                half.contains(p) || exists|x: int, y: int| #[trigger] on_sides(outer, x, y) && p == y * w + x,
        );
        let target = box_pixels(w, h, *d);
        assert forall|p: int| all.contains(p) <==> #[trigger] target.contains(p) by {
            if half.contains(p) {
                let (x, y) = choose|x: int, y: int| #[trigger] on_sides(inner, x, y) && p == y * w + x;
                assert(on_box(w, h, *d, x, y));
            } else if all.contains(p) {
                let (x, y) = choose|x: int, y: int| #[trigger] on_sides(outer, x, y) && p == y * w + x;
                assert(on_box(w, h, *d, x, y));
            }
            if target.contains(p) {
                let (x, y) = choose|x: int, y: int| #[trigger]
                    on_box(w, h, *d, x, y) && p == y * w + x;
                if on_sides(inner, x, y) {
                    assert(half.contains(p));
                } else {
                    assert(on_sides(outer, x, y));
                }
            }
        }
        assert(all =~= target);
    }
}

/// Whether pixel (`x`, `y`) of a frame of width `w` can be addressed.
fn can_address(w: u32, x: u32, y: u32) -> (res: bool)
    ensures
        res == addressable(y * w + x),
{
    proof {
        assert(0 <= y * w <= u32::MAX * u32::MAX) by (nonlinear_arith);
    }
    let p: u64 = y as u64 * w as u64 + x as u64;
    p <= u32::MAX as u64 && 3 * p + 2 <= usize::MAX as u64
}

fn rectangle_fits(w: u32, r: (u32, u32, u32, u32)) -> (res: bool)
    ensures
        res == rectangle_ok(w, (r.0 as int, r.1 as int, r.2 as int, r.3 as int)),
{
    let (x1, y1, x2, y2) = r;
    (x1 > x2 || (can_address(w, x2, y1) && can_address(w, x2, y2))) && (y1 > y2 || (can_address(
        w,
        x1,
        y2,
    ) && can_address(w, x2, y2)))
}

/// Whether the box of a detection can be drawn on a frame of `w` by `h` pixels.
pub fn box_fits(w: u32, h: u32, d: &Detection) -> (res: bool)
    ensures
        res == box_ok(w, h, *d),
{
    if w == 0 || w > i32::MAX as u32 || h == 0 || h > i32::MAX as u32 {
        return false;
    }
    let right: i64 = d.x as i64 + d.width as i64;
    let bottom: i64 = d.y as i64 + d.height as i64;
    if right < i32::MIN as i64 || right > i32::MAX as i64 || bottom < i32::MIN as i64 || bottom
        > i32::MAX as i64 {
        return false;
    }
    rectangle_fits(w, outline_at(w, h, d, 0)) && rectangle_fits(w, outline_at(w, h, d, 1))
}

/// A frame with the boxes of all detections drawn on it, later ones over earlier
/// ones.
pub open spec fn annotated(frame: Seq<u8>, w: u32, h: u32, dets: Seq<Detection>) -> Seq<u8>
    decreases dets.len(),
{
    if dets.len() == 0 {
        frame
    } else {
        let d = dets.last();
        painted(
            annotated(frame, w, h, dets.drop_last()),
            box_pixels(w, h, d),
            palette(d.class_id as int),
        )
    }
}

/// Draws the boxes of all detections on a packed RGB frame.
pub fn annotate_frame(buf: &mut [u8], w: u32, h: u32, dets: &Vec<Detection>)
    requires
        forall|i: int| 0 <= i < dets@.len() ==> box_ok(w, h, #[trigger] dets@[i]),
    ensures
        final(buf)@ == annotated(old(buf)@, w, h, dets@),
{
    let ghost first = buf@;
    let mut i: usize = 0;
    assert(dets@.take(0) =~= Seq::<Detection>::empty());
    while i < dets.len()
        invariant
            i <= dets@.len(),
            forall|j: int| 0 <= j < dets@.len() ==> box_ok(w, h, #[trigger] dets@[j]),
            buf@ == annotated(first, w, h, dets@.take(i as int)),
        decreases dets@.len() - i,
    {
        draw_box_rgb(buf, w, h, &dets[i]);
        proof {
            assert(dets@.take(i + 1).drop_last() =~= dets@.take(i as int));
            assert(dets@.take(i + 1).last() == dets@[i as int]);
        }
        i = i + 1;
    }
    assert(dets@.take(dets@.len() as int) =~= dets@);
}

/// Law: drawing a box changes no byte outside the pixels of its sides and keeps
/// the length of the frame.
pub proof fn law_box_leaves_the_rest(frame: Seq<u8>, w: u32, h: u32, d: Detection, k: int)
    requires
        0 <= k < frame.len(),
        !box_pixels(w, h, d).contains(k / 3),
    ensures
        painted(frame, box_pixels(w, h, d), palette(d.class_id as int)).len() == frame.len(),
        painted(frame, box_pixels(w, h, d), palette(d.class_id as int))[k] == frame[k],
{
}

/// Law: a box that lies inside the frame is drawn inside the frame: every pixel
/// drawn for it has a column of the frame and a row of the frame.
pub proof fn law_inner_box_stays_in_the_frame(w: u32, h: u32, d: Detection, x: int, y: int)
    requires
        box_ok(w, h, d),
        d.x < w,
        d.y < h,
        on_box(w, h, d, x, y),
    ensures
        0 <= x < w,
        0 <= y < h,
{
}

} // verus!
