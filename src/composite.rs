use crate::display::DisplayInfo;
use crate::image::Image;
use vstd::arithmetic::div_mod::lemma_fundamental_div_mod_converse;
use vstd::prelude::*;

verus! {

/// Left edge of the composite: the least monitor `x`, and never right of 0.
pub open spec fn x_min(ds: Seq<DisplayInfo>) -> int
    decreases ds.len(),
{
    if ds.len() == 0 {
        0
    } else {
        let m = x_min(ds.drop_last());
        if ds.last().x < m { ds.last().x as int } else { m }
    }
}

/// Top edge of the composite: the least monitor `y`, and never below 0.
pub open spec fn y_min(ds: Seq<DisplayInfo>) -> int
    decreases ds.len(),
{
    if ds.len() == 0 {
        0
    } else {
        let m = y_min(ds.drop_last());
        if ds.last().y < m { ds.last().y as int } else { m }
    }
}

/// Right edge (exclusive) of the composite: the greatest monitor right edge,
/// and never left of 0.
pub open spec fn x_max(ds: Seq<DisplayInfo>) -> int
    decreases ds.len(),
{
    if ds.len() == 0 {
        0
    } else {
        let m = x_max(ds.drop_last());
        if ds.last().right() > m { ds.last().right() } else { m }
    }
}

/// Bottom edge (exclusive) of the composite: the greatest monitor bottom edge,
/// and never above 0.
pub open spec fn y_max(ds: Seq<DisplayInfo>) -> int
    decreases ds.len(),
{
    if ds.len() == 0 {
        0
    } else {
        let m = y_max(ds.drop_last());
        if ds.last().bottom() > m { ds.last().bottom() } else { m }
    }
}

pub open spec fn total_width(ds: Seq<DisplayInfo>) -> int {
    x_max(ds) - x_min(ds)
}

pub open spec fn total_height(ds: Seq<DisplayInfo>) -> int {
    y_max(ds) - y_min(ds)
}

/// Whether monitor `d`, shifted by `(-xmin, -ymin)`, covers byte `c` of row
/// `row` of the composite.
pub open spec fn covers(d: DisplayInfo, xmin: int, ymin: int, row: int, c: int) -> bool {
    &&& d.y - ymin <= row < d.y - ymin + d.height
    &&& (d.x - xmin) * 4 <= c < (d.x - xmin + d.width) * 4
}

/// Index in `d`'s own capture of the byte that lands at `(row, c)`.
pub open spec fn source_index(d: DisplayInfo, xmin: int, ymin: int, row: int, c: int) -> int {
    (row - (d.y - ymin)) * (d.width * 4) + (c - (d.x - xmin) * 4)
}

/// Byte `c` of row `row` once the first `n` monitors are composited in order:
/// that of the last one with a capture that covers the place, else zero.
pub open spec fn painted(
    ds: Seq<DisplayInfo>,
    cs: Seq<Option<Vec<u8>>>,
    n: nat,
    xmin: int,
    ymin: int,
    row: int,
    c: int,
) -> u8
    decreases n,
{
    if n == 0 {
        0
    } else {
        let d = ds[n - 1];
        match cs[n - 1] {
            Some(data) if covers(d, xmin, ymin, row, c) => data@[source_index(d, xmin, ymin, row, c)],
            _ => painted(ds, cs, (n - 1) as nat, xmin, ymin, row, c),
        }
    }
}

/// The composite buffer of all monitors: `total_height` rows of
/// `total_width * 4` bytes.
pub open spec fn composite_model(ds: Seq<DisplayInfo>, cs: Seq<Option<Vec<u8>>>) -> Seq<u8> {
    let w4 = total_width(ds) * 4;
    Seq::new(
        (w4 * total_height(ds)) as nat,
        |k: int| painted(ds, cs, ds.len(), x_min(ds), y_min(ds), k / w4, k % w4),
    )
}

/// One capture per monitor; each present capture holds four bytes per pixel.
pub open spec fn captures_fit(ds: Seq<DisplayInfo>, cs: Seq<Option<Vec<u8>>>) -> bool {
    &&& cs.len() == ds.len()
    &&& forall|i: int|
        0 <= i < cs.len() ==> (#[trigger] cs[i] matches Some(data) ==> data@.len() == ds[i].width
            * ds[i].height * 4)
}

proof fn lemma_flat_index(row: int, c: int, w: int, h: int)
    requires
        0 <= row < h,
        0 <= c < w,
    ensures
        0 <= row * w + c < h * w,
        (row * w + c) / w == row,
        (row * w + c) % w == c,
{
    assert(0 <= row * w + c < h * w) by (nonlinear_arith)
        requires
            0 <= row < h,
            0 <= c < w,
    ;
    lemma_fundamental_div_mod_converse(row * w + c, w, row, c);
}

/// The bounding box encloses the origin and every monitor, and each of its
/// edges is 0 or the edge of some monitor.
pub proof fn lemma_bounds(ds: Seq<DisplayInfo>)
    ensures
        x_min(ds) <= 0 <= x_max(ds),
        y_min(ds) <= 0 <= y_max(ds),
        forall|i: int|
            0 <= i < ds.len() ==> {
                &&& x_min(ds) <= #[trigger] ds[i].x
                &&& ds[i].right() <= x_max(ds)
                &&& y_min(ds) <= ds[i].y
                &&& ds[i].bottom() <= y_max(ds)
            },
        x_min(ds) == 0 || exists|i: int| 0 <= i < ds.len() && ds[i].x == x_min(ds),
        x_max(ds) == 0 || exists|i: int| 0 <= i < ds.len() && ds[i].right() == x_max(ds),
        y_min(ds) == 0 || exists|i: int| 0 <= i < ds.len() && ds[i].y == y_min(ds),
        y_max(ds) == 0 || exists|i: int| 0 <= i < ds.len() && ds[i].bottom() == y_max(ds),
    decreases ds.len(),
{
    if ds.len() > 0 {
        let p = ds.drop_last();
        lemma_bounds(p);
        assert forall|i: int| 0 <= i < p.len() implies #[trigger] ds[i] == p[i] by {}
        if x_min(ds) != 0 && x_min(ds) != ds.last().x {
            let i = choose|i: int| 0 <= i < p.len() && p[i].x == x_min(p);
            assert(ds[i].x == x_min(ds));
        }
        if x_max(ds) != 0 && x_max(ds) != ds.last().right() {
            let i = choose|i: int| 0 <= i < p.len() && p[i].right() == x_max(p);
            assert(ds[i].right() == x_max(ds));
        }
        if y_min(ds) != 0 && y_min(ds) != ds.last().y {
            let i = choose|i: int| 0 <= i < p.len() && p[i].y == y_min(p);
            assert(ds[i].y == y_min(ds));
        }
        if y_max(ds) != 0 && y_max(ds) != ds.last().bottom() {
            let i = choose|i: int| 0 <= i < p.len() && p[i].bottom() == y_max(p);
            assert(ds[i].bottom() == y_max(ds));
        }
        assert(ds.last() == ds[ds.len() - 1]);
    }
}

/// The bounding box `(x_min, y_min, x_max, y_max)` of the monitors and the origin.
pub fn bounding_box(displays: &Vec<DisplayInfo>) -> (r: (i64, i64, i64, i64))
    ensures
        r.0 == x_min(displays@),
        r.1 == y_min(displays@),
        r.2 == x_max(displays@),
        r.3 == y_max(displays@),
{
    let mut xmin: i64 = 0;
    let mut ymin: i64 = 0;
    let mut xmax: i64 = 0;
    let mut ymax: i64 = 0;
    let mut j: usize = 0;
    while j < displays.len()
        invariant
            j <= displays.len(),
            xmin == x_min(displays@.subrange(0, j as int)),
            ymin == y_min(displays@.subrange(0, j as int)),
            xmax == x_max(displays@.subrange(0, j as int)),
            ymax == y_max(displays@.subrange(0, j as int)),
            i32::MIN <= xmin <= 0 <= xmax <= i32::MAX + u32::MAX,
            i32::MIN <= ymin <= 0 <= ymax <= i32::MAX + u32::MAX,
        decreases displays.len() - j,
    {
        let d = displays[j];
        let right = d.x as i64 + d.width as i64;
        let bottom = d.y as i64 + d.height as i64;
        if (d.x as i64) < xmin {
            xmin = d.x as i64;
        }
        if right > xmax {
            xmax = right;
        }
        if (d.y as i64) < ymin {
            ymin = d.y as i64;
        }
        if bottom > ymax {
            ymax = bottom;
        }
        proof {
            assert(displays@.subrange(0, j + 1).drop_last() == displays@.subrange(0, j as int));
        }
        j += 1;
    }
    proof {
        assert(displays@.subrange(0, j as int) == displays@);
    }
    (xmin, ymin, xmax, ymax)
}


/// Whether byte `(row, c)` of monitor `d`'s area was already copied when row
/// `i` of the monitor is being copied up to byte `b`.
spec fn copied(d: DisplayInfo, xmin: int, ymin: int, row: int, c: int, i: int, b: int) -> bool {
    &&& covers(d, xmin, ymin, row, c)
    &&& (row - (d.y - ymin) < i || (row - (d.y - ymin) == i && c - (d.x - xmin) * 4 < b))
}

/// Copies the capture of monitor `d` into the composite, row by row, at its
/// place shifted by `(-xmin, -ymin)`.
fn paint_display(
    buf: &mut Vec<u8>,
    d: DisplayInfo,
    data: &Vec<u8>,
    xmin: i64,
    ymin: i64,
    w4: usize,
    th: usize,
    Ghost(before): Ghost<spec_fn(int, int) -> u8>,
)
    requires
        old(buf)@.len() == th * w4,
        w4 > 0,
        data@.len() == d.width * d.height * 4,
        i32::MIN <= xmin <= d.x,
        i32::MIN <= ymin <= d.y,
        (d.right() - xmin) * 4 <= w4,
        d.bottom() - ymin <= th,
        forall|k: int|
            0 <= k < old(buf)@.len() ==> #[trigger] old(buf)@[k] == before(k / w4 as int, k % w4 as int),
    ensures
        final(buf)@.len() == th * w4,
        forall|k: int|
            0 <= k < final(buf)@.len() ==> #[trigger] final(buf)@[k] == (if covers(
                d,
                xmin as int,
                ymin as int,
                k / w4 as int,
                k % w4 as int,
            ) {
                data@[source_index(d, xmin as int, ymin as int, k / w4 as int, k % w4 as int)]
            } else {
                before(k / w4 as int, k % w4 as int)
            }),
{
    let ghost len = th * w4;
    let ghost xm = xmin as int;
    let ghost ym = ymin as int;
    let y_norm: usize = (d.y as i64 - ymin) as usize;
    let x_norm: usize = (d.x as i64 - xmin) as usize;
    let h: usize = d.height as usize;
    let dw4: usize = d.width as usize * 4;
    let mut i: usize = 0;
    while i < h
        invariant
            i <= h,
            buf@.len() == len,
            len == buf.len(),
            data@.len() == data.len(),
            len == th * w4,
            w4 > 0,
            y_norm == d.y - ymin,
            x_norm == d.x - xmin,
            h == d.height,
            dw4 == d.width * 4,
            xm == xmin,
            ym == ymin,
            data@.len() == d.width * d.height * 4,
            (d.right() - xmin) * 4 <= w4,
            d.bottom() - ymin <= th,
            forall|k: int|
                0 <= k < len ==> #[trigger] buf@[k] == (if copied(d, xm, ym, k / w4 as int, k % w4 as int, i as int, 0) {
                    data@[source_index(d, xm, ym, k / w4 as int, k % w4 as int)]
                } else {
                    before(k / w4 as int, k % w4 as int)
                }),
        decreases h - i,
    {
        let row: usize = y_norm + i;
        proof {
            assert(x_norm * 4 + dw4 <= w4) by (nonlinear_arith)
                requires
                    (d.right() - xmin) * 4 <= w4,
                    x_norm == d.x - xmin,
                    dw4 == d.width * 4,
            ;
            assert(row * w4 + x_norm * 4 + dw4 <= th * w4) by (nonlinear_arith)
                requires
                    row < th,
                    x_norm * 4 + dw4 <= w4,
            ;
            assert((i as int) * (dw4 as int) + dw4 <= data@.len()) by (nonlinear_arith)
                requires
                    i < h,
                    dw4 == d.width * 4,
                    h == d.height,
                    data@.len() == d.width * d.height * 4,
            ;
        }
        let row_start: usize = row * w4 + x_norm * 4;
        let src_start: usize = i * dw4;
        let mut b: usize = 0;
        while b < dw4
            invariant
                b <= dw4,
                i < h,
                row == y_norm + i,
                buf@.len() == len,
                len == th * w4,
                w4 > 0,
                y_norm == d.y - ymin,
                x_norm == d.x - xmin,
                h == d.height,
                dw4 == d.width * 4,
                xm == xmin,
                ym == ymin,
                row_start == row * w4 + x_norm * 4,
                src_start == i * dw4,
                src_start + dw4 <= data@.len(),
                row_start + dw4 <= len,
                len == buf.len(),
                data@.len() == data.len(),
                x_norm * 4 + dw4 <= w4,
                row < th,
                forall|k: int|
                    0 <= k < len ==> #[trigger] buf@[k] == (if copied(d, xm, ym, k / w4 as int, k % w4 as int, i as int, b as int) {
                        data@[source_index(d, xm, ym, k / w4 as int, k % w4 as int)]
                    } else {
                        before(k / w4 as int, k % w4 as int)
                    }),
            decreases dw4 - b,
        {
            let k0: usize = row_start + b;
            proof {
                lemma_flat_index(row as int, x_norm * 4 + b, w4 as int, th as int);
            }
            let v = data[src_start + b];
            let ghost old_buf = buf@;
            buf.set(k0, v);
            proof {
                assert(source_index(d, xm, ym, row as int, x_norm * 4 + b) == src_start + b) by (nonlinear_arith)
                    requires
                        row == y_norm + i,
                        y_norm == d.y - ym,
                        x_norm == d.x - xm,
                        src_start == i * dw4,
                        dw4 == d.width * 4,
                ;
                assert forall|k: int| 0 <= k < len implies #[trigger] buf@[k] == (if copied(d, xm, ym, k / w4 as int, k % w4 as int, i as int, b + 1) {
                    data@[source_index(d, xm, ym, k / w4 as int, k % w4 as int)]
                } else {
                    before(k / w4 as int, k % w4 as int)
                }) by {
                    if k != k0 {
                        let r = k / w4 as int;
                        let c = k % w4 as int;
                        vstd::arithmetic::div_mod::lemma_fundamental_div_mod(k, w4 as int);
                        if r == row && c == x_norm * 4 + b {
                            assert(k == r * w4 + c) by (nonlinear_arith)
                                requires
                                    k == w4 * (k / w4 as int) + k % w4 as int,
                                    r == k / w4 as int,
                                    c == k % w4 as int,
                            ;
                        }
                        assert(old_buf[k] == buf@[k]);
                    }
                }
            }
            b += 1;
        }
        proof {
            assert forall|k: int| 0 <= k < len implies #[trigger] buf@[k] == (if copied(d, xm, ym, k / w4 as int, k % w4 as int, i + 1, 0) {
                data@[source_index(d, xm, ym, k / w4 as int, k % w4 as int)]
            } else {
                before(k / w4 as int, k % w4 as int)
            }) by {
                assert(copied(d, xm, ym, k / w4 as int, k % w4 as int, i + 1, 0) == copied(d, xm, ym, k / w4 as int, k % w4 as int, i as int, dw4 as int));
            }
        }
        i += 1;
    }
    proof {
        assert forall|k: int| 0 <= k < len implies #[trigger] buf@[k] == (if covers(d, xm, ym, k / w4 as int, k % w4 as int) {
            data@[source_index(d, xm, ym, k / w4 as int, k % w4 as int)]
        } else {
            before(k / w4 as int, k % w4 as int)
        }) by {
            assert(copied(d, xm, ym, k / w4 as int, k % w4 as int, h as int, 0) == covers(d, xm, ym, k / w4 as int, k % w4 as int));
        }
    }
}


/// Composites the captures of all monitors into one image that spans their
/// bounding box, which always holds the origin.
///
/// Monitors are painted in order, so where two overlap the later one wins; a
/// monitor whose capture is missing leaves its area zero. The result is `None`
/// only where the composite is wider or taller than a `u32` holds.
pub fn composite_all(displays: &Vec<DisplayInfo>, captures: &Vec<Option<Vec<u8>>>) -> (r: Option<Image>)
    requires
        captures_fit(displays@, captures@),
        total_width(displays@) * total_height(displays@) * 4 <= usize::MAX,
    ensures
        r is Some <==> total_width(displays@) <= u32::MAX && total_height(displays@) <= u32::MAX,
        r matches Some(img) ==> {
            &&& img.spec_width() == total_width(displays@)
            &&& img.spec_height() == total_height(displays@)
            &&& img.spec_buffer() == composite_model(displays@, captures@)
        },
{
    let ghost ds = displays@;
    let ghost cs = captures@;
    let (xmin, ymin, xmax, ymax) = bounding_box(displays);
    proof {
        lemma_bounds(ds);
    }
    let tw: i64 = xmax - xmin;
    let th: i64 = ymax - ymin;
    if tw > u32::MAX as i64 || th > u32::MAX as i64 {
        return None;
    }
    if tw == 0 || th == 0 {
        proof {
            assert(composite_model(ds, cs).len() == 0) by (nonlinear_arith)
                requires
                    tw == 0 || th == 0,
                    tw == total_width(ds),
                    th == total_height(ds),
                    composite_model(ds, cs).len() == (total_width(ds) * 4 * total_height(ds)) as nat,
            ;
        }
        let empty: Vec<u8> = Vec::new();
        proof {
            assert(empty@ =~= composite_model(ds, cs));
            assert((tw as u32) * (th as u32) * 4 == 0) by (nonlinear_arith)
                requires
                    tw == 0 || th == 0,
                    0 <= tw <= u32::MAX,
                    0 <= th <= u32::MAX,
            ;
        }
        return match Image::from_bgra(tw as u32, th as u32, empty) {
            Ok(img) => Some(img),
            Err(_) => None,
        };
    }
    proof {
        assert(tw * 4 <= tw * th * 4 && th <= tw * th * 4 && tw * th * 4 == tw * 4 * th) by (nonlinear_arith)
            requires
                th >= 1,
                tw >= 1,
        ;
    }
    let w4: usize = tw as usize * 4;
    let rows: usize = th as usize;
    let len: usize = w4 * rows;
    let mut buf: Vec<u8> = Vec::new();
    while buf.len() < len
        invariant
            buf.len() <= len,
            forall|k: int| 0 <= k < buf.len() ==> #[trigger] buf@[k] == 0u8,
        decreases len - buf.len(),
    {
        buf.push(0);
    }
    let mut j: usize = 0;
    while j < displays.len()
        invariant
            j <= displays.len(),
            ds == displays@,
            cs == captures@,
            captures_fit(ds, cs),
            buf.len() == len,
            len == th * w4,
            rows == th,
            w4 == tw * 4,
            w4 > 0,
            xmin == x_min(ds),
            ymin == y_min(ds),
            tw == total_width(ds),
            th == total_height(ds),
            xmin <= 0 && ymin <= 0 && i32::MIN <= xmin && i32::MIN <= ymin,
            forall|i: int|
                0 <= i < ds.len() ==> {
                    &&& x_min(ds) <= #[trigger] ds[i].x
                    &&& ds[i].right() <= x_max(ds)
                    &&& y_min(ds) <= ds[i].y
                    &&& ds[i].bottom() <= y_max(ds)
                },
            forall|k: int|
                0 <= k < len ==> #[trigger] buf@[k] == painted(
                    ds,
                    cs,
                    j as nat,
                    xmin as int,
                    ymin as int,
                    k / w4 as int,
                    k % w4 as int,
                ),
        decreases displays.len() - j,
    {
        let d = displays[j];
        match &captures[j] {
            Some(data) => {
                proof {
                    assert(cs[j as int] matches Some(v) && v == *data);
                }
                paint_display(
                    &mut buf,
                    d,
                    data,
                    xmin,
                    ymin,
                    w4,
                    rows,
                    Ghost(|r: int, c: int| painted(ds, cs, j as nat, xmin as int, ymin as int, r, c)),
                );
            },
            None => {},
        }
        j += 1;
    }
    proof {
        assert(buf@ =~= composite_model(ds, cs));
    }
    match Image::from_bgra(tw as u32, th as u32, buf) {
        Ok(img) => Some(img),
        Err(_) => None,
    }
}


proof fn lemma_painted_topmost(
    ds: Seq<DisplayInfo>,
    cs: Seq<Option<Vec<u8>>>,
    n: nat,
    xmin: int,
    ymin: int,
    row: int,
    c: int,
    i: int,
)
    requires
        0 <= i < n <= ds.len(),
        n <= cs.len(),
        cs[i] is Some,
        covers(ds[i], xmin, ymin, row, c),
        forall|j: int| i < j < n ==> !(#[trigger] cs[j] is Some && covers(ds[j], xmin, ymin, row, c)),
    ensures
        painted(ds, cs, n, xmin, ymin, row, c) == cs[i]->Some_0@[source_index(ds[i], xmin, ymin, row, c)],
    decreases n,
{
    if n - 1 != i {
        assert(!(cs[n - 1] is Some && covers(ds[n - 1], xmin, ymin, row, c)));
        lemma_painted_topmost(ds, cs, (n - 1) as nat, xmin, ymin, row, c, i);
    }
}

proof fn lemma_painted_blank(
    ds: Seq<DisplayInfo>,
    cs: Seq<Option<Vec<u8>>>,
    n: nat,
    xmin: int,
    ymin: int,
    row: int,
    c: int,
)
    requires
        n <= ds.len(),
        n <= cs.len(),
        forall|j: int| 0 <= j < n ==> !(#[trigger] cs[j] is Some && covers(ds[j], xmin, ymin, row, c)),
    ensures
        painted(ds, cs, n, xmin, ymin, row, c) == 0,
    decreases n,
{
    if n > 0 {
        assert(!(cs[n - 1] is Some && covers(ds[n - 1], xmin, ymin, row, c)));
        lemma_painted_blank(ds, cs, (n - 1) as nat, xmin, ymin, row, c);
    }
}

/// Byte `c` of row `r` of monitor `i`'s own area, as placed in the composite:
/// shifted right by `-x_min` and down by `-y_min`.
pub open spec fn placed_index(ds: Seq<DisplayInfo>, i: int, r: int, c: int) -> int {
    (ds[i].y - y_min(ds) + r) * (total_width(ds) * 4) + (ds[i].x - x_min(ds)) * 4 + c
}

/// Whether some monitor other than `i`, with a capture, covers byte `c` of row
/// `r` of monitor `i`'s area; `later` looks only at the monitors after `i`.
pub open spec fn overdrawn(ds: Seq<DisplayInfo>, cs: Seq<Option<Vec<u8>>>, i: int, r: int, c: int, later: bool) -> bool {
    exists|j: int|
        0 <= j < ds.len() && j != i && (later ==> j > i) && #[trigger] cs[j] is Some && covers(
            ds[j],
            x_min(ds),
            y_min(ds),
            ds[i].y - y_min(ds) + r,
            (ds[i].x - x_min(ds)) * 4 + c,
        )
}

proof fn lemma_place_in_bounds(ds: Seq<DisplayInfo>, i: int, r: int, c: int)
    requires
        0 <= i < ds.len(),
        0 <= r < ds[i].height,
        0 <= c < ds[i].width * 4,
    ensures
        0 <= placed_index(ds, i, r, c) < composite_model(ds, Seq::empty()).len(),
        placed_index(ds, i, r, c) / (total_width(ds) * 4) == ds[i].y - y_min(ds) + r,
        placed_index(ds, i, r, c) % (total_width(ds) * 4) == (ds[i].x - x_min(ds)) * 4 + c,
        covers(ds[i], x_min(ds), y_min(ds), ds[i].y - y_min(ds) + r, (ds[i].x - x_min(ds)) * 4 + c),
{
    lemma_bounds(ds);
    let d = ds[i];
    assert(d.x == ds[i].x);
    let row = d.y - y_min(ds) + r;
    let col = (d.x - x_min(ds)) * 4 + c;
    let w4 = total_width(ds) * 4;
    assert(col < w4) by (nonlinear_arith)
        requires
            col == (d.x - x_min(ds)) * 4 + c,
            c < d.width * 4,
            d.x + d.width <= x_max(ds),
            w4 == (x_max(ds) - x_min(ds)) * 4,
    ;
    assert(0 <= col) by (nonlinear_arith)
        requires
            col == (d.x - x_min(ds)) * 4 + c,
            0 <= c,
            x_min(ds) <= d.x,
    ;
    lemma_flat_index(row, col, w4, total_height(ds));
    assert(w4 * total_height(ds) == total_height(ds) * w4) by (nonlinear_arith);
}

/// Where a monitor with a capture is not painted over by a later one, the
/// composite holds its captured byte at the place shifted by `(-x_min, -y_min)`.
pub proof fn lemma_pixels_land(ds: Seq<DisplayInfo>, cs: Seq<Option<Vec<u8>>>, i: int, r: int, c: int)
    requires
        captures_fit(ds, cs),
        0 <= i < ds.len(),
        cs[i] is Some,
        0 <= r < ds[i].height,
        0 <= c < ds[i].width * 4,
        !overdrawn(ds, cs, i, r, c, true),
    ensures
        0 <= placed_index(ds, i, r, c) < composite_model(ds, cs).len(),
        composite_model(ds, cs)[placed_index(ds, i, r, c)] == cs[i]->Some_0@[r * (ds[i].width * 4) + c],
{
    lemma_place_in_bounds(ds, i, r, c);
    let row = ds[i].y - y_min(ds) + r;
    let col = (ds[i].x - x_min(ds)) * 4 + c;
    assert forall|j: int| i < j < ds.len() implies !(#[trigger] cs[j] is Some && covers(
        ds[j],
        x_min(ds),
        y_min(ds),
        row,
        col,
    )) by {
        if cs[j] is Some && covers(ds[j], x_min(ds), y_min(ds), row, col) {
            assert(overdrawn(ds, cs, i, r, c, true));
        }
    }
    lemma_painted_topmost(ds, cs, ds.len(), x_min(ds), y_min(ds), row, col, i);
}

/// Where a monitor's capture is missing and no other monitor with a capture
/// covers the place, the composite holds zero there.
pub proof fn lemma_missing_capture_blank(ds: Seq<DisplayInfo>, cs: Seq<Option<Vec<u8>>>, i: int, r: int, c: int)
    requires
        captures_fit(ds, cs),
        0 <= i < ds.len(),
        cs[i] is None,
        0 <= r < ds[i].height,
        0 <= c < ds[i].width * 4,
        !overdrawn(ds, cs, i, r, c, false),
    ensures
        0 <= placed_index(ds, i, r, c) < composite_model(ds, cs).len(),
        composite_model(ds, cs)[placed_index(ds, i, r, c)] == 0,
{
    lemma_place_in_bounds(ds, i, r, c);
    let row = ds[i].y - y_min(ds) + r;
    let col = (ds[i].x - x_min(ds)) * 4 + c;
    assert forall|j: int| 0 <= j < ds.len() implies !(#[trigger] cs[j] is Some && covers(
        ds[j],
        x_min(ds),
        y_min(ds),
        row,
        col,
    )) by {
        if cs[j] is Some && covers(ds[j], x_min(ds), y_min(ds), row, col) {
            assert(j != i);
            assert(overdrawn(ds, cs, i, r, c, false));
        }
    }
    lemma_painted_blank(ds, cs, ds.len(), x_min(ds), y_min(ds), row, col);
}


/// Where every monitor has a non-negative origin and some monitor touches each
/// axis, the bounding box is the least rectangle that encloses all monitors.
pub proof fn lemma_bounding_box_tight(ds: Seq<DisplayInfo>)
    requires
        ds.len() > 0,
        forall|i: int| 0 <= i < ds.len() ==> (#[trigger] ds[i]).x >= 0 && ds[i].y >= 0,
        exists|i: int| 0 <= i < ds.len() && #[trigger] ds[i].x == 0,
        exists|i: int| 0 <= i < ds.len() && #[trigger] ds[i].y == 0,
    ensures
        forall|i: int|
            0 <= i < ds.len() ==> {
                &&& x_min(ds) <= #[trigger] ds[i].x
                &&& ds[i].right() <= x_max(ds)
                &&& y_min(ds) <= ds[i].y
                &&& ds[i].bottom() <= y_max(ds)
            },
        exists|i: int| 0 <= i < ds.len() && #[trigger] ds[i].x == x_min(ds),
        exists|i: int| 0 <= i < ds.len() && #[trigger] ds[i].right() == x_max(ds),
        exists|i: int| 0 <= i < ds.len() && #[trigger] ds[i].y == y_min(ds),
        exists|i: int| 0 <= i < ds.len() && #[trigger] ds[i].bottom() == y_max(ds),
        total_width(ds) == x_max(ds) - x_min(ds),
        total_height(ds) == y_max(ds) - y_min(ds),
{
    lemma_bounds(ds);
    if x_min(ds) != 0 {
        let i = choose|i: int| 0 <= i < ds.len() && ds[i].x == x_min(ds);
        assert(ds[i].x >= 0);
    }
    if y_min(ds) != 0 {
        let i = choose|i: int| 0 <= i < ds.len() && ds[i].y == y_min(ds);
        assert(ds[i].y >= 0);
    }
    if x_max(ds) == 0 {
        assert(ds[0].x >= 0 && ds[0].right() <= x_max(ds));
        assert(ds[0].right() == x_max(ds));
    }
    if y_max(ds) == 0 {
        assert(ds[0].y >= 0 && ds[0].bottom() <= y_max(ds));
        assert(ds[0].bottom() == y_max(ds));
    }
}

/// The `w` by `h` pixel rectangle at pixel `(x, y)` of a buffer whose rows are
/// `stride` bytes apart, packed row after row.
pub open spec fn sub_rect(buf: Seq<u8>, stride: int, x: int, y: int, w: int, h: int) -> Seq<u8> {
    Seq::new((w * 4 * h) as nat, |k: int| buf[(y + k / (w * 4)) * stride + x * 4 + k % (w * 4)])
}

proof fn lemma_split_index(k: int, w4: int, h: int)
    requires
        w4 > 0,
        0 <= k < w4 * h,
    ensures
        0 <= k / w4 < h,
        0 <= k % w4 < w4,
        k == (k / w4) * w4 + k % w4,
{
    vstd::arithmetic::div_mod::lemma_fundamental_div_mod(k, w4);
    vstd::arithmetic::div_mod::lemma_mod_bound(k, w4);
    assert(0 <= k / w4 < h) by (nonlinear_arith)
        requires
            w4 > 0,
            0 <= k < w4 * h,
            k == w4 * (k / w4) + k % w4,
            0 <= k % w4 < w4,
    ;
}

/// Compositing one monitor and cutting its own rectangle back out of the
/// composite gives its capture, byte for byte.
pub proof fn lemma_round_trip(d: DisplayInfo, data: Vec<u8>)
    requires
        data@.len() == d.width * d.height * 4,
    ensures
        ({
            let ds = seq![d];
            sub_rect(
                composite_model(ds, seq![Some(data)]),
                total_width(ds) * 4,
                d.x - x_min(ds),
                d.y - y_min(ds),
                d.width as int,
                d.height as int,
            ) == data@
        }),
{
    let ds = seq![d];
    let cs = seq![Some(data)];
    assert(captures_fit(ds, cs));
    let w4 = d.width * 4;
    let got = sub_rect(
        composite_model(ds, cs),
        total_width(ds) * 4,
        d.x - x_min(ds),
        d.y - y_min(ds),
        d.width as int,
        d.height as int,
    );
    assert(got.len() == data@.len()) by (nonlinear_arith)
        requires
            got.len() == w4 * d.height,
            data@.len() == d.width * d.height * 4,
            w4 == d.width * 4,
    ;
    assert forall|k: int| 0 <= k < got.len() implies got[k] == data@[k] by {
        lemma_split_index(k, w4, d.height as int);
        let r = k / w4;
        let c = k % w4;
        assert(!overdrawn(ds, cs, 0, r, c, true));
        lemma_pixels_land(ds, cs, 0, r, c);
        assert(placed_index(ds, 0, r, c) == (d.y - y_min(ds) + r) * (total_width(ds) * 4) + (d.x - x_min(ds)) * 4 + c);
        assert(r * (d.width * 4) + c == k);
    }
    assert(got =~= data@);
}

/// A single monitor at the origin composites to its own capture, byte for byte.
pub proof fn lemma_single_at_origin(d: DisplayInfo, data: Vec<u8>)
    requires
        d.x == 0,
        d.y == 0,
        data@.len() == d.width * d.height * 4,
    ensures
        total_width(seq![d]) == d.width,
        total_height(seq![d]) == d.height,
        composite_model(seq![d], seq![Some(data)]) == data@,
{
    let ds = seq![d];
    let cs = seq![Some(data)];
    assert(ds.drop_last() =~= Seq::<DisplayInfo>::empty());
    assert(ds.last() == d);
    let e = ds.drop_last();
    assert(x_min(e) == 0 && y_min(e) == 0 && x_max(e) == 0 && y_max(e) == 0);
    assert(x_min(ds) == 0 && y_min(ds) == 0);
    assert(x_max(ds) == d.width && y_max(ds) == d.height);
    let w4 = d.width * 4;
    let m = composite_model(ds, cs);
    assert(m.len() == data@.len()) by (nonlinear_arith)
        requires
            m.len() == d.width * 4 * d.height,
            data@.len() == d.width * d.height * 4,
    ;
    assert forall|k: int| 0 <= k < m.len() implies m[k] == data@[k] by {
        assert(w4 > 0) by (nonlinear_arith)
            requires
                0 <= k < w4 * d.height,
                w4 >= 0,
                d.height >= 0,
        ;
        lemma_split_index(k, w4, d.height as int);
        let r = k / w4;
        let c = k % w4;
        lemma_round_trip(d, data);
        assert(r * w4 + c == k);
        assert(c / w4 == 0 && c % w4 == c) by {
            lemma_fundamental_div_mod_converse(c, w4, 0, c);
        }
        let sr = sub_rect(m, w4, 0, 0, d.width as int, d.height as int);
        assert(sr[k] == m[(0 + k / w4) * w4 + 0 * 4 + k % w4]);
    }
    assert(m =~= data@);
}

} // verus!
