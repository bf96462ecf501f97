use vstd::prelude::*;
use crate::css::{clamp_i32, Display};
use crate::engine::Page;
use crate::layout::{max_int, or_zero, slot, LayoutValue, NodeLayoutInfo};
use crate::util::{arc_from, painted, pack_spec, quarter_circle_lines, DrawingError, IdBuffer, Rect, Rgba, Segment, RADIUS_LIMIT};

verus! {

/// A rectangle from corner and size, each clamped to its type; a negative
/// size is empty.
pub open spec fn mk_rect(x: int, y: int, w: int, h: int) -> Rect {
    Rect {
        x: clamp_i32(x),
        y: clamp_i32(y),
        w: if w < 0 { 0 } else { clamp_i32(w) as u32 },
        h: if h < 0 { 0 } else { clamp_i32(h) as u32 },
    }
}

fn make_rect(x: i64, y: i64, w: i64, h: i64) -> (r: Rect)
    ensures
        r == mk_rect(x as int, y as int, w as int, h as int),
{
    Rect {
        x: clamp64(x),
        y: clamp64(y),
        w: if w < 0 { 0 } else { clamp64(w) as u32 },
        h: if h < 0 { 0 } else { clamp64(h) as u32 },
    }
}

fn clamp64(v: i64) -> (r: i32)
    ensures
        r == clamp_i32(v as int),
{
    if v < i32::MIN as i64 {
        i32::MIN
    } else if v > i32::MAX as i64 {
        i32::MAX
    } else {
        v as i32
    }
}

/// The row of pixels between the far ends of two lines of one step of a
/// corner's fan.
pub open spec fn span_between(a: Segment, b: Segment) -> Rect {
    let lo = if a.x1 <= b.x1 { a.x1 as int } else { b.x1 as int };
    let hi = if a.x1 <= b.x1 { b.x1 as int } else { a.x1 as int };
    mk_rect(lo, a.y1 as int, hi - lo + 1, 1)
}

/// The rows a fan of corner lines covers: each step's eight lines end in
/// pairs on four rows (lines 0 and 3, 1 and 2, 4 and 7, 5 and 6).
pub open spec fn fan_rows(lines: Seq<Segment>) -> Seq<Rect>
    decreases lines.len(),
{
    if lines.len() < 8 {
        Seq::empty()
    } else {
        seq![
            span_between(lines[0], lines[3]),
            span_between(lines[1], lines[2]),
            span_between(lines[4], lines[7]),
            span_between(lines[5], lines[6]),
        ] + fan_rows(lines.skip(8))
    }
}

/// The rows a rounded corner of radius `r` around `(cx, cy)` covers on the
/// id surface: those of the corner's fan of lines; none for a radius the
/// fan cannot be drawn for.
pub open spec fn corner_rows_spec(cx: i32, cy: i32, r: i32) -> Seq<Rect> {
    if 0 < r <= RADIUS_LIMIT {
        fan_rows(arc_from(cx as int, cy as int, 1, 1, r as int, 0, 0))
    } else {
        Seq::empty()
    }
}

fn span_of(a: Segment, b: Segment) -> (r: Rect)
    ensures
        r == span_between(a, b),
{
    let lo = if a.x1 <= b.x1 { a.x1 as i64 } else { b.x1 as i64 };
    let hi = if a.x1 <= b.x1 { b.x1 as i64 } else { a.x1 as i64 };
    make_rect(lo, a.y1 as i64, hi - lo + 1, 1)
}

/// The rows of a rounded corner on the id surface.
pub fn corner_rows(cx: i32, cy: i32, r: i32) -> (rows: Vec<Rect>)
    ensures
        rows@ == corner_rows_spec(cx, cy, r),
{
    let lines = match quarter_circle_lines(cx, cy, r, 1, 1) {
        Ok(l) => l,
        Err(_) => {
            return Vec::new();
        },
    };
    let ghost all = lines@;
    let mut out: Vec<Rect> = Vec::new();
    let mut k: usize = 0;
    assert(all.skip(0) =~= all);
    while lines.len() >= 8 && k <= lines.len() - 8
        invariant
            all == lines@,
            k <= lines@.len(),
            out@ + fan_rows(all.skip(k as int)) == fan_rows(all),
        decreases lines@.len() - k,
    {
        let ghost rest = all.skip(k as int);
        let ghost before = out@;
        out.push(span_of(lines[k], lines[k + 3]));
        out.push(span_of(lines[k + 1], lines[k + 2]));
        out.push(span_of(lines[k + 4], lines[k + 7]));
        out.push(span_of(lines[k + 5], lines[k + 6]));
        proof {
            assert(rest.skip(8) =~= all.skip(k + 8));
            assert(rest[0] == all[k as int] && rest[3] == all[k + 3] && rest[1] == all[k + 1] && rest[2] == all[k + 2]);
            assert(rest[4] == all[k + 4] && rest[7] == all[k + 7] && rest[5] == all[k + 5] && rest[6] == all[k + 6]);
            assert(out@ =~= before + seq![
                span_between(rest[0], rest[3]),
                span_between(rest[1], rest[2]),
                span_between(rest[4], rest[7]),
                span_between(rest[5], rest[6]),
            ]);
            assert(out@ + fan_rows(all.skip(k + 8)) =~= before + fan_rows(rest));
        }
        k += 8;
    }
    assert(fan_rows(all.skip(k as int)) =~= Seq::<Rect>::empty());
    out
}

/// The geometry of a node's painted box: its border box, and the offsets
/// that the corner radii cut from each side.
#[derive(Clone, Copy, Debug, PartialEq, Eq, Structural)]
pub struct BoxGeometry {
    pub x: i32,
    pub y: i32,
    pub full_width: i32,
    pub full_height: i32,
    pub left_offset: i32,
    pub right_offset: i32,
    pub top_offset: i32,
    pub bottom_offset: i32,
    pub inner_width: i32,
    pub inner_height: i32,
    pub border_top: i32,
    pub border_right: i32,
    pub border_bottom: i32,
    pub border_left: i32,
    pub radius_top_left: i32,
    pub radius_top_right: i32,
    pub radius_bottom_left: i32,
    pub radius_bottom_right: i32,
}

/// The box of a layout record: width and height grow by padding and border
/// on each side; a side's offset is the larger radius of its two corners.
pub open spec fn geometry_of(v: Seq<Option<i32>>) -> BoxGeometry {
    let pt = or_zero(slot(v, LayoutValue::PaddingTop));
    let pr = or_zero(slot(v, LayoutValue::PaddingRight));
    let pb = or_zero(slot(v, LayoutValue::PaddingBottom));
    let pl = or_zero(slot(v, LayoutValue::PaddingLeft));
    let bt = or_zero(slot(v, LayoutValue::BorderTopWidth));
    let br = or_zero(slot(v, LayoutValue::BorderRightWidth));
    let bb = or_zero(slot(v, LayoutValue::BorderBottomWidth));
    let bl = or_zero(slot(v, LayoutValue::BorderLeftWidth));
    let rtl = or_zero(slot(v, LayoutValue::BorderTopLeftRadius));
    let rtr = or_zero(slot(v, LayoutValue::BorderTopRightRadius));
    let rbl = or_zero(slot(v, LayoutValue::BorderBottomLeftRadius));
    let rbr = or_zero(slot(v, LayoutValue::BorderBottomRightRadius));
    let fw = clamp_i32(or_zero(slot(v, LayoutValue::Width)) + pl + pr + bl + br);
    let fh = clamp_i32(or_zero(slot(v, LayoutValue::Height)) + pt + pb + bt + bb);
    let lo = max_int(rtl, rbl);
    let ro = max_int(rtr, rbr);
    let to = max_int(rtl, rtr);
    let bo = max_int(rbl, rbr);
    BoxGeometry {
        x: clamp_i32(or_zero(slot(v, LayoutValue::X))),
        y: clamp_i32(or_zero(slot(v, LayoutValue::Y))),
        full_width: fw,
        full_height: fh,
        left_offset: lo as i32,
        right_offset: ro as i32,
        top_offset: to as i32,
        bottom_offset: bo as i32,
        inner_width: clamp_i32(fw - lo - ro),
        inner_height: clamp_i32(fh - to - bo),
        border_top: bt as i32,
        border_right: br as i32,
        border_bottom: bb as i32,
        border_left: bl as i32,
        radius_top_left: rtl as i32,
        radius_top_right: rtr as i32,
        radius_bottom_left: rbl as i32,
        radius_bottom_right: rbr as i32,
    }
}

/// Whether a record has the slots a box needs to be painted.
pub open spec fn paintable(v: Seq<Option<i32>>) -> bool {
    slot(v, LayoutValue::X) is Some && slot(v, LayoutValue::Y) is Some && slot(v, LayoutValue::Width) is Some
        && slot(v, LayoutValue::Height) is Some
}

/// The message naming the first of x, y, width and height that is unset.
pub open spec fn missing_slot(v: Seq<Option<i32>>) -> Seq<char> {
    if slot(v, LayoutValue::X) is None {
        "missing x"@
    } else if slot(v, LayoutValue::Y) is None {
        "missing y"@
    } else if slot(v, LayoutValue::Width) is None {
        "missing width"@
    } else {
        "missing height"@
    }
}

impl BoxGeometry {
    /// The geometry of a layout record; an error naming the first of x, y,
    /// width and height that is unset.
    pub fn of(layout: &NodeLayoutInfo) -> (r: Result<BoxGeometry, DrawingError>)
        requires
            layout.wf(),
        ensures
            match r {
                Ok(g) => paintable(layout@) && g == geometry_of(layout@),
                Err(e) => !paintable(layout@) && e.msg@ == missing_slot(layout@),
            },
    {
        let x = match layout.get(LayoutValue::X) {
            Some(v) => v,
            None => {
                return Err(DrawingError { msg: String::from_str("missing x") });
            },
        };
        let y = match layout.get(LayoutValue::Y) {
            Some(v) => v,
            None => {
                return Err(DrawingError { msg: String::from_str("missing y") });
            },
        };
        let width = match layout.get(LayoutValue::Width) {
            Some(v) => v,
            None => {
                return Err(DrawingError { msg: String::from_str("missing width") });
            },
        };
        let height = match layout.get(LayoutValue::Height) {
            Some(v) => v,
            None => {
                return Err(DrawingError { msg: String::from_str("missing height") });
            },
        };
        let pt = layout.value_or_zero(LayoutValue::PaddingTop);
        let pr = layout.value_or_zero(LayoutValue::PaddingRight);
        let pb = layout.value_or_zero(LayoutValue::PaddingBottom);
        let pl = layout.value_or_zero(LayoutValue::PaddingLeft);
        let bt = layout.value_or_zero(LayoutValue::BorderTopWidth);
        let br = layout.value_or_zero(LayoutValue::BorderRightWidth);
        let bb = layout.value_or_zero(LayoutValue::BorderBottomWidth);
        let bl = layout.value_or_zero(LayoutValue::BorderLeftWidth);
        let rtl = layout.value_or_zero(LayoutValue::BorderTopLeftRadius);
        let rtr = layout.value_or_zero(LayoutValue::BorderTopRightRadius);
        let rbl = layout.value_or_zero(LayoutValue::BorderBottomLeftRadius);
        let rbr = layout.value_or_zero(LayoutValue::BorderBottomRightRadius);
        let fw = clamp64(width as i64 + pl + pr + bl + br);
        let fh = clamp64(height as i64 + pt + pb + bt + bb);
        let lo = if rtl >= rbl { rtl } else { rbl };
        let ro = if rtr >= rbr { rtr } else { rbr };
        let to = if rtl >= rtr { rtl } else { rtr };
        let bo = if rbl >= rbr { rbl } else { rbr };
        Ok(BoxGeometry {
            x,
            y,
            full_width: fw,
            full_height: fh,
            left_offset: lo as i32,
            right_offset: ro as i32,
            top_offset: to as i32,
            bottom_offset: bo as i32,
            inner_width: clamp64(fw as i64 - lo - ro),
            inner_height: clamp64(fh as i64 - to - bo),
            border_top: bt as i32,
            border_right: br as i32,
            border_bottom: bb as i32,
            border_left: bl as i32,
            radius_top_left: rtl as i32,
            radius_top_right: rtr as i32,
            radius_bottom_left: rbl as i32,
            radius_bottom_right: rbr as i32,
        })
    }

    /// The rectangles that cover the box on the id surface: the middle, the
    /// four side bands, each corner square whose radius is zero, and the
    /// rows of each rounded corner's fan.
    pub open spec fn id_rects_spec(self) -> Seq<Rect> {
        let x = self.x as int;
        let y = self.y as int;
        let lo = self.left_offset as int;
        let ro = self.right_offset as int;
        let to = self.top_offset as int;
        let bo = self.bottom_offset as int;
        let iw = self.inner_width as int;
        let ih = self.inner_height as int;
        let sides = seq![
            mk_rect(x + lo, y + to, iw, ih),
            mk_rect(x, y + to, lo, ih),
            mk_rect(x + lo + iw, y + to, ro, ih),
            mk_rect(x + lo, y, iw, to),
            mk_rect(x + lo, y + to + ih, iw, bo),
        ];
        let c1 = if self.radius_top_left <= 0 {
            sides.push(mk_rect(x, y, lo, to))
        } else {
            sides + corner_rows_spec(clamp_i32(x + lo), clamp_i32(y + to), self.radius_top_left)
        };
        let c2 = if self.radius_bottom_left <= 0 {
            c1.push(mk_rect(x, y + to + ih, lo, bo))
        } else {
            c1 + corner_rows_spec(clamp_i32(x + lo), clamp_i32(y + to + ih), self.radius_bottom_left)
        };
        let c3 = if self.radius_top_right <= 0 {
            c2.push(mk_rect(x + lo + iw, y, ro, to))
        } else {
            c2 + corner_rows_spec(clamp_i32(x + lo + iw), clamp_i32(y + to), self.radius_top_right)
        };
        if self.radius_bottom_right <= 0 {
            c3.push(mk_rect(x + lo + iw, y + to + ih, ro, bo))
        } else {
            c3 + corner_rows_spec(clamp_i32(x + lo + iw), clamp_i32(y + to + ih), self.radius_bottom_right)
        }
    }

    pub fn id_rects(&self) -> (r: Vec<Rect>)
        ensures
            r@ == self.id_rects_spec(),
    {
        let x = self.x as i64;
        let y = self.y as i64;
        let lo = self.left_offset as i64;
        let ro = self.right_offset as i64;
        let to = self.top_offset as i64;
        let bo = self.bottom_offset as i64;
        let iw = self.inner_width as i64;
        let ih = self.inner_height as i64;
        let mut r: Vec<Rect> = Vec::new();
        r.push(make_rect(x + lo, y + to, iw, ih));
        r.push(make_rect(x, y + to, lo, ih));
        r.push(make_rect(x + lo + iw, y + to, ro, ih));
        r.push(make_rect(x + lo, y, iw, to));
        r.push(make_rect(x + lo, y + to + ih, iw, bo));
        if self.radius_top_left <= 0 {
            r.push(make_rect(x, y, lo, to));
        } else {
            let mut rows = corner_rows(clamp64(x + lo), clamp64(y + to), self.radius_top_left);
            r.append(&mut rows);
        }
        if self.radius_bottom_left <= 0 {
            r.push(make_rect(x, y + to + ih, lo, bo));
        } else {
            let mut rows = corner_rows(clamp64(x + lo), clamp64(y + to + ih), self.radius_bottom_left);
            r.append(&mut rows);
        }
        if self.radius_top_right <= 0 {
            r.push(make_rect(x + lo + iw, y, ro, to));
        } else {
            let mut rows = corner_rows(clamp64(x + lo + iw), clamp64(y + to), self.radius_top_right);
            r.append(&mut rows);
        }
        if self.radius_bottom_right <= 0 {
            r.push(make_rect(x + lo + iw, y + to + ih, ro, bo));
        } else {
            let mut rows = corner_rows(clamp64(x + lo + iw), clamp64(y + to + ih), self.radius_bottom_right);
            r.append(&mut rows);
        }
        assert(r@ =~= self.id_rects_spec());
        r
    }
}

impl BoxGeometry {
    /// The four border bands drawn on the visible surface, in the order
    /// top, left, bottom, right: each runs between the corner offsets of its
    /// side and is as thick as its border.
    pub open spec fn border_rects_spec(self) -> Seq<Rect> {
        let x = self.x as int;
        let y = self.y as int;
        seq![
            mk_rect(x + self.left_offset, y, self.inner_width as int, self.border_top as int),
            mk_rect(x, y + self.top_offset, self.border_left as int, self.inner_height as int),
            mk_rect(x + self.left_offset, y + self.full_height - self.border_bottom, self.inner_width as int, self.border_bottom as int),
            mk_rect(x + self.full_width - self.border_right, y + self.top_offset, self.border_right as int, self.inner_height as int),
        ]
    }

    pub fn border_rects(&self) -> (r: Vec<Rect>)
        ensures
            r@ == self.border_rects_spec(),
    {
        let x = self.x as i64;
        let y = self.y as i64;
        let mut r: Vec<Rect> = Vec::new();
        r.push(make_rect(x + self.left_offset as i64, y, self.inner_width as i64, self.border_top as i64));
        r.push(make_rect(x, y + self.top_offset as i64, self.border_left as i64, self.inner_height as i64));
        r.push(make_rect(
            x + self.left_offset as i64,
            y + self.full_height as i64 - self.border_bottom as i64,
            self.inner_width as i64,
            self.border_bottom as i64,
        ));
        r.push(make_rect(
            x + self.full_width as i64 - self.border_right as i64,
            y + self.top_offset as i64,
            self.border_right as i64,
            self.inner_height as i64,
        ));
        assert(r@ =~= self.border_rects_spec());
        r
    }
}

/// A surface after each of the rectangles is stamped in turn.
pub open spec fn painted_all(rows: Seq<Seq<Option<Rgba>>>, rects: Seq<Rect>, c: Rgba) -> Seq<Seq<Option<Rgba>>>
    decreases rects.len(),
{
    if rects.len() == 0 {
        rows
    } else {
        painted(painted_all(rows, rects.drop_last(), c), rects.last(), c)
    }
}

impl Page {
    /// Whether node `i` is painted: it has a computed style, its display is
    /// not `none`, and its record has a position and a size.
    pub open spec fn paints(&self, i: int) -> bool {
        self.styles@[i] is Some && self.input().display(i) != Some(Display::Hidden) && paintable(self.layout_view()[i])
    }

    /// The id surface after nodes `0..k` are painted in document order.
    pub open spec fn ids_after(&self, rows: Seq<Seq<Option<Rgba>>>, k: int) -> Seq<Seq<Option<Rgba>>>
        decreases k,
    {
        if k <= 0 {
            rows
        } else {
            let prev = self.ids_after(rows, k - 1);
            if self.paints(k - 1) {
                painted_all(prev, geometry_of(self.layout_view()[k - 1]).id_rects_spec(), pack_spec((k - 1) as u32))
            } else {
                prev
            }
        }
    }

    /// Paints every node's box on a fresh id surface of the viewport's size,
    /// in document order, so a later node covers an earlier one.
    pub fn paint_ids(&self) -> (r: IdBuffer)
        requires
            self.wf(),
            self.document.nodes@.len() <= u32::MAX,
        ensures
            r.wf(),
            r.width == self.viewport_width,
            r.height == self.viewport_height,
            r@ == self.ids_after(IdBuffer::new_view(self.viewport_width, self.viewport_height), self.document.nodes@.len() as int),
    {
        let mut buf = IdBuffer::new(self.viewport_width, self.viewport_height);
        let ghost start = buf@;
        assert(start =~= IdBuffer::new_view(self.viewport_width, self.viewport_height)) by {
            assert forall|y: int| 0 <= y < start.len() implies #[trigger] start[y] =~= IdBuffer::new_view(self.viewport_width, self.viewport_height)[y] by {
                assert(buf.rows@[y]@.len() == self.viewport_width);
            }
        }
        let n = self.document.len();
        let mut i: usize = 0;
        while i < n
            invariant
                self.wf(),
                n == self.document.nodes@.len(),
                n <= u32::MAX,
                i <= n,
                buf.wf(),
                buf.width == self.viewport_width,
                buf.height == self.viewport_height,
                buf@ == self.ids_after(start, i as int),
            decreases n - i,
        {
            let draws = match &self.styles[i] {
                Some(_) => self.display(i) != Some(Display::Hidden),
                None => false,
            };
            if draws {
                match BoxGeometry::of(&self.layouts[i]) {
                    Ok(g) => {
                        let rects = g.id_rects();
                        let ghost before = buf@;
                        let mut k: usize = 0;
                        while k < rects.len()
                            invariant
                                k <= rects@.len(),
                                buf.wf(),
                                buf.width == self.viewport_width,
                                buf.height == self.viewport_height,
                                buf@ == painted_all(before, rects@.subrange(0, k as int), pack_spec(i as u32)),
                            decreases rects@.len() - k,
                        {
                            buf.fill_rect(rects[k], i as u32);
                            proof {
                                assert(rects@.subrange(0, k + 1).drop_last() =~= rects@.subrange(0, k as int));
                            }
                            k += 1;
                        }
                        assert(rects@.subrange(0, rects@.len() as int) =~= rects@);
                    },
                    Err(_) => {},
                }
            }
            i += 1;
        }
        buf
    }
}

impl IdBuffer {
    /// The rows of a surface with nothing painted.
    pub open spec fn new_view(width: u32, height: u32) -> Seq<Seq<Option<Rgba>>> {
        Seq::new(height as nat, |y: int| Seq::new(width as nat, |x: int| None::<Rgba>))
    }
}

} // verus!
