use vstd::prelude::*;

verus! {

/// A colour as red, green, blue and alpha bytes.
#[derive(Clone, Copy, Debug, PartialEq, Eq, Structural)]
pub struct Rgba {
    pub r: u8,
    pub g: u8,
    pub b: u8,
    pub a: u8,
}

pub open spec fn pack_spec(id: u32) -> Rgba {
    Rgba {
        r: (id & 0xff) as u8,
        g: ((id >> 8u32) & 0xff) as u8,
        b: ((id >> 16u32) & 0xff) as u8,
        a: ((id >> 24u32) & 0xff) as u8,
    }
}

pub open spec fn unpack_spec(c: Rgba) -> u32 {
    (c.r as u32) | ((c.g as u32) << 8u32) | ((c.b as u32) << 16u32) | ((c.a as u32) << 24u32)
}

/// The colour that stands for node `id` on the id surface: its bytes from
/// the lowest, as red, green, blue and alpha.
pub fn pack_id_color(id: u32) -> (r: Rgba)
    ensures
        r == pack_spec(id),
{
    Rgba {
        r: (id & 0xff) as u8,
        g: ((id >> 8u32) & 0xff) as u8,
        b: ((id >> 16u32) & 0xff) as u8,
        a: ((id >> 24u32) & 0xff) as u8,
    }
}

/// The node id a colour of the id surface stands for.
pub fn unpack_id_color(color: Rgba) -> (r: u32)
    ensures
        r == unpack_spec(color),
{
    (color.r as u32) | ((color.g as u32) << 8u32) | ((color.b as u32) << 16u32) | ((color.a as u32) << 24u32)
}

/// Packing a node id into a colour and reading it back gives the id.
pub proof fn lemma_pack_round_trip(id: u32)
    ensures
        unpack_spec(pack_spec(id)) == id,
{
    let r = (id & 0xff) as u8;
    let g = ((id >> 8u32) & 0xff) as u8;
    let b = ((id >> 16u32) & 0xff) as u8;
    let a = ((id >> 24u32) & 0xff) as u8;
    assert((r as u32) | ((g as u32) << 8u32) | ((b as u32) << 16u32) | ((a as u32) << 24u32) == id) by (bit_vector)
        requires
            r == (id & 0xff) as u8,
            g == ((id >> 8u32) & 0xff) as u8,
            b == ((id >> 16u32) & 0xff) as u8,
            a == ((id >> 24u32) & 0xff) as u8,
    ;
}

/// The big-endian number in the first four bytes.
pub fn u32_from_bytes(bytes: &[u8]) -> (r: u32)
    requires
        bytes@.len() >= 4,
    ensures
        r == (bytes@[0] as u32) * 0x1000000 + (bytes@[1] as u32) * 0x10000 + (bytes@[2] as u32) * 0x100 + (bytes@[3] as u32),
{
    let b0 = bytes[0];
    let b1 = bytes[1];
    let b2 = bytes[2];
    let b3 = bytes[3];
    let r = ((b0 as u32) << 24u32) | ((b1 as u32) << 16u32) | ((b2 as u32) << 8u32) | (b3 as u32);
    assert(r == (b0 as u32) * 0x1000000 + (b1 as u32) * 0x10000 + (b2 as u32) * 0x100 + (b3 as u32)) by (bit_vector)
        requires
            r == ((b0 as u32) << 24u32) | ((b1 as u32) << 16u32) | ((b2 as u32) << 8u32) | (b3 as u32),
    ;
    r
}

/// A drawing operation that could not be done.
#[derive(Debug, PartialEq, Clone)]
pub struct DrawingError {
    pub msg: String,
}

/// A drawing operation that was done.
#[derive(Debug)]
pub struct DrawingSuccess;

/// A rectangle of pixels: its top-left corner and its size.
#[derive(Clone, Copy, Debug, PartialEq, Eq, Structural)]
pub struct Rect {
    pub x: i32,
    pub y: i32,
    pub w: u32,
    pub h: u32,
}

impl Rect {
    pub open spec fn contains(self, px: int, py: int) -> bool {
        self.x <= px < self.x + self.w && self.y <= py < self.y + self.h
    }
}

/// The id surface as rows of pixels, each empty or holding a packed id.
pub open spec fn painted(rows: Seq<Seq<Option<Rgba>>>, r: Rect, c: Rgba) -> Seq<Seq<Option<Rgba>>> {
    Seq::new(
        rows.len(),
        |py: int| Seq::new(rows[py].len(), |px: int| if r.contains(px, py) { Some(c) } else { rows[py][px] }),
    )
}

/// What a query at `(x, y)` finds on a surface.
pub open spec fn query_spec(rows: Seq<Seq<Option<Rgba>>>, x: int, y: int) -> Option<u32> {
    if 0 <= y < rows.len() && 0 <= x < rows[y].len() {
        match rows[y][x] {
            Some(c) => Some(unpack_spec(c)),
            None => None,
        }
    } else {
        None
    }
}

/// An off-screen surface of the viewport's size on which each painted
/// region holds the packed id of the node it belongs to.
#[derive(Debug)]
pub struct IdBuffer {
    pub width: u32,
    pub height: u32,
    pub rows: Vec<Vec<Option<Rgba>>>,
}

impl View for IdBuffer {
    type V = Seq<Seq<Option<Rgba>>>;

    open spec fn view(&self) -> Seq<Seq<Option<Rgba>>> {
        self.rows@.map_values(|row: Vec<Option<Rgba>>| row@)
    }
}

impl IdBuffer {
    pub open spec fn wf(&self) -> bool {
        &&& self.rows@.len() == self.height
        &&& forall|y: int| 0 <= y < self.height ==> (#[trigger] self.rows@[y])@.len() == self.width
    }

    /// A surface of the given size with nothing painted.
    pub fn new(width: u32, height: u32) -> (r: IdBuffer)
        ensures
            r.wf(),
            r.width == width,
            r.height == height,
            forall|y: int, x: int| 0 <= y < height && 0 <= x < width ==> r@[y][x] is None,
    {
        let mut rows: Vec<Vec<Option<Rgba>>> = Vec::new();
        let mut j: u32 = 0;
        while j < height
            invariant
                j <= height,
                rows@.len() == j,
                forall|y: int| 0 <= y < j ==> (#[trigger] rows@[y])@.len() == width && forall|x: int| 0 <= x < width ==> rows@[y]@[x] is None,
            decreases height - j,
        {
            let row: Vec<Option<Rgba>> = vec![None; width as usize];
            rows.push(row);
            j += 1;
        }
        IdBuffer { width, height, rows }
    }

    /// Stamps the packed `id` on the pixels of `r` that lie on the surface.
    pub fn fill_rect(&mut self, r: Rect, id: u32)
        requires
            old(self).wf(),
        ensures
            final(self).wf(),
            final(self).width == old(self).width,
            final(self).height == old(self).height,
            final(self)@ == painted(old(self)@, r, pack_spec(id)),
    {
        let c = pack_id_color(id);
        let ghost start = self@;
        let x0: i64 = if r.x < 0 { 0 } else { r.x as i64 };
        let y0: i64 = if r.y < 0 { 0 } else { r.y as i64 };
        let x1: i64 = if r.x as i64 + r.w as i64 > self.width as i64 { self.width as i64 } else { r.x as i64 + r.w as i64 };
        let y1: i64 = if r.y as i64 + r.h as i64 > self.height as i64 { self.height as i64 } else { r.y as i64 + r.h as i64 };
        let mut y: i64 = y0;
        while y < y1
            invariant
                self.wf(),
                self.width == old(self).width,
                self.height == old(self).height,
                start == old(self)@,
                0 <= y0 <= y,
                y1 <= self.height,
                0 <= x0,
                x1 <= self.width,
                x0 == (if r.x < 0 { 0 } else { r.x as int }),
                x1 == (if r.x + r.w > self.width { self.width as int } else { r.x + r.w }),
                y0 == (if r.y < 0 { 0 } else { r.y as int }),
                y1 == (if r.y + r.h > self.height { self.height as int } else { r.y + r.h }),
                forall|py: int, px: int| 0 <= py < self.height && 0 <= px < self.width ==> #[trigger] self@[py][px] == (if r.contains(px, py) && py < y { Some(c) } else { start[py][px] }),
            decreases y1 - y,
        {
            let mut x: i64 = x0;
            let ghost before = self@;
            while x < x1
                invariant
                    self.wf(),
                    self.width == old(self).width,
                    self.height == old(self).height,
                    0 <= y < y1,
                    y1 <= self.height,
                    0 <= x0 <= x,
                    x == x0 || x <= x1,
                    x1 <= self.width,
                    x0 == (if r.x < 0 { 0 } else { r.x as int }),
                    x1 == (if r.x + r.w > self.width { self.width as int } else { r.x + r.w }),
                    forall|py: int, px: int| 0 <= py < self.height && 0 <= px < self.width ==> #[trigger] self@[py][px] == (if py == y && x0 <= px < x { Some(c) } else { before[py][px] }),
                decreases x1 - x,
            {
                let ghost prev = self@;
                self.rows[y as usize].set(x as usize, Some(c));
                proof {
                    assert(self@ =~= prev.update(y as int, prev[y as int].update(x as int, Some(c))));
                }
                x += 1;
            }
            proof {
                assert forall|py: int, px: int| 0 <= py < self.height && 0 <= px < self.width implies #[trigger] self@[py][px] == (if r.contains(px, py) && py < y + 1 { Some(c) } else { start[py][px] }) by {
                    assert(self@[py][px] == (if py == y && x0 <= px < x1 { Some(c) } else { before[py][px] }));
                }
            }
            y += 1;
        }
        proof {
            assert(self@ =~= painted(start, r, c)) by {
                assert forall|py: int| 0 <= py < self@.len() implies #[trigger] self@[py] =~= painted(start, r, c)[py] by {}
            }
        }
    }

    /// The node whose id is painted at `(x, y)`; `None` outside the surface
    /// or where nothing is painted.
    pub fn query(&self, x: i32, y: i32) -> (r: Option<u32>)
        requires
            self.wf(),
        ensures
            r == query_spec(self@, x as int, y as int),
    {
        if x < 0 || y < 0 || x as i64 >= self.width as i64 || y as i64 >= self.height as i64 {
            return None;
        }
        match self.rows[y as usize][x as usize] {
            Some(c) => Some(unpack_id_color(c)),
            None => None,
        }
    }
}

/// Hit-testing round trip: after a rectangle is stamped with a node's id, a
/// query at any pixel of the rectangle on the surface finds that node, and a
/// query anywhere else finds what was there before.
pub proof fn lemma_hit_round_trip(rows: Seq<Seq<Option<Rgba>>>, r: Rect, id: u32, x: int, y: int)
    ensures
        r.contains(x, y) && 0 <= y < rows.len() && 0 <= x < rows[y].len() ==> query_spec(painted(rows, r, pack_spec(id)), x, y) == Some(id),
        !r.contains(x, y) ==> query_spec(painted(rows, r, pack_spec(id)), x, y) == query_spec(rows, x, y),
{
    lemma_pack_round_trip(id);
}

/// Bound on the radius of a drawn corner.
pub const RADIUS_LIMIT: i32 = 1000000;

/// A line from `(x0, y0)` to `(x1, y1)`.
#[derive(Clone, Copy, Debug, PartialEq, Eq, Structural)]
pub struct Segment {
    pub x0: i32,
    pub y0: i32,
    pub x1: i32,
    pub y1: i32,
}

pub open spec fn spoke(cx: int, cy: int, px: int, py: int) -> Segment {
    Segment { x0: cx as i32, y0: cy as i32, x1: clamp_to(px), y1: clamp_to(py) }
}

pub open spec fn clamp_to(v: int) -> i32 {
    if v < i32::MIN {
        i32::MIN
    } else if v > i32::MAX {
        i32::MAX
    } else {
        v as i32
    }
}

/// The eight lines from the centre to the points `(±x, ±y)` and `(±y, ±x)`
/// of one step, turned by the two directions.
pub open spec fn spokes(cx: int, cy: int, x: int, y: int, xd: int, yd: int) -> Seq<Segment> {
    seq![
        spoke(cx, cy, cx + x * xd, cy + y * yd),
        spoke(cx, cy, cx + y * xd, cy + x * yd),
        spoke(cx, cy, cx - y * xd, cy + x * yd),
        spoke(cx, cy, cx - x * xd, cy + y * yd),
        spoke(cx, cy, cx - x * xd, cy - y * yd),
        spoke(cx, cy, cx - y * xd, cy - x * yd),
        spoke(cx, cy, cx + y * xd, cy - x * yd),
        spoke(cx, cy, cx + x * xd, cy - y * yd),
    ]
}

/// The lines of the midpoint circle algorithm from the step `(x, y)` with
/// error `err` on: each step draws its spokes, moves `y` up by one, and
/// moves `x` in by one when the error says the circle has passed it.
pub open spec fn arc_from(cx: int, cy: int, xd: int, yd: int, x: int, y: int, err: int) -> Seq<Segment>
    decreases (if x >= y { x - y + 1 } else { 0 }),
{
    if x < y {
        Seq::empty()
    } else {
        let y1 = y + 1;
        let e1 = err + 1 + 2 * y1;
        let (x2, e2) = if 2 * (e1 - x) + 1 > 0 {
            (x - 1, e1 + 1 - 2 * (x - 1))
        } else {
            (x, e1)
        };
        spokes(cx, cy, x, y, xd, yd) + arc_from(cx, cy, xd, yd, x2, y1, e2)
    }
}

fn clamp_i64(v: i64) -> (r: i32)
    ensures
        r == clamp_to(v as int),
{
    if v < i32::MIN as i64 {
        i32::MIN
    } else if v > i32::MAX as i64 {
        i32::MAX
    } else {
        v as i32
    }
}

/// The lines that fill a circle of radius `r` around `(x0, y0)` by the
/// midpoint circle algorithm; an error for a radius that is not positive or
/// is larger than `RADIUS_LIMIT`.
pub fn quarter_circle_lines(x0: i32, y0: i32, r: i32, x_direction: i32, y_direction: i32) -> (res: Result<Vec<Segment>, DrawingError>)
    requires
        x_direction == 1 || x_direction == -1,
        y_direction == 1 || y_direction == -1,
    ensures
        match res {
            Ok(lines) => 0 < r <= RADIUS_LIMIT && lines@ == arc_from(x0 as int, y0 as int, x_direction as int, y_direction as int, r as int, 0, 0),
            Err(_) => r <= 0 || r > RADIUS_LIMIT,
        },
{
    if r <= 0 {
        return Err(DrawingError { msg: String::from_str("Radius must be greater than 0") });
    }
    if r > RADIUS_LIMIT {
        return Err(DrawingError { msg: String::from_str("Radius is too large to draw") });
    }
    let cx = x0 as i64;
    let cy = y0 as i64;
    let xd = x_direction as i64;
    let yd = y_direction as i64;
    let rr = r as i64;
    let mut x: i64 = rr;
    let mut y: i64 = 0;
    let mut err: i64 = 0;
    let mut out: Vec<Segment> = Vec::new();
    let ghost whole = arc_from(cx as int, cy as int, xd as int, yd as int, rr as int, 0, 0);
    assert(out@ + arc_from(cx as int, cy as int, xd as int, yd as int, x as int, y as int, err as int) =~= whole);
    while x >= y
        invariant
            xd == 1 || xd == -1,
            yd == 1 || yd == -1,
            cx == x0,
            cy == y0,
            0 < rr <= RADIUS_LIMIT,
            -1 <= x <= rr,
            0 <= y <= rr + 1,
            err == y * y + x * x - rr * rr + 2 * (rr - x) + 2 * y,
            out@ + arc_from(cx as int, cy as int, xd as int, yd as int, x as int, y as int, err as int) == whole,
        decreases x - y + 2,
    {
        let ghost before = out@;
        let ghost rest = arc_from(cx as int, cy as int, xd as int, yd as int, x as int, y as int, err as int);
        let px = if xd == 1 { x } else { -x };
        let py = if yd == 1 { y } else { -y };
        let qx = if xd == 1 { y } else { -y };
        let qy = if yd == 1 { x } else { -x };
        assert(px == x * xd && py == y * yd && qx == y * xd && qy == x * yd);
        out.push(Segment { x0: x0, y0: y0, x1: clamp_i64(cx + px), y1: clamp_i64(cy + py) });
        out.push(Segment { x0: x0, y0: y0, x1: clamp_i64(cx + qx), y1: clamp_i64(cy + qy) });
        out.push(Segment { x0: x0, y0: y0, x1: clamp_i64(cx - qx), y1: clamp_i64(cy + qy) });
        out.push(Segment { x0: x0, y0: y0, x1: clamp_i64(cx - px), y1: clamp_i64(cy + py) });
        out.push(Segment { x0: x0, y0: y0, x1: clamp_i64(cx - px), y1: clamp_i64(cy - py) });
        out.push(Segment { x0: x0, y0: y0, x1: clamp_i64(cx - qx), y1: clamp_i64(cy - qy) });
        out.push(Segment { x0: x0, y0: y0, x1: clamp_i64(cx + qx), y1: clamp_i64(cy - qy) });
        out.push(Segment { x0: x0, y0: y0, x1: clamp_i64(cx + px), y1: clamp_i64(cy - py) });
        proof {
            assert(out@ =~= before + spokes(cx as int, cy as int, x as int, y as int, xd as int, yd as int));
        }
        let ghost (ox, oy, oe) = (x as int, y as int, err as int);
        proof {
            assert(0 <= y * y <= (rr + 1) * (rr + 1)) by (nonlinear_arith)
                requires
                    0 <= y <= rr + 1;
            assert(0 <= x * x <= (rr + 1) * (rr + 1)) by (nonlinear_arith)
                requires
                    -1 <= x <= rr,
                    0 < rr;
            assert(rr * rr <= 1000000 * 1000000) by (nonlinear_arith)
                requires
                    0 < rr <= 1000000;
            assert((rr + 1) * (rr + 1) <= 1000001 * 1000001) by (nonlinear_arith)
                requires
                    0 < rr <= 1000000;
            assert(-3000000000000 <= err <= 3000000000000);
        }
        y = y + 1;
        err = err + 1 + 2 * y;
        if 2 * (err - x) + 1 > 0 {
            x = x - 1;
            err = err + 1 - 2 * x;
        }
        proof {
            assert(err == y * y + x * x - rr * rr + 2 * (rr - x) + 2 * y) by (nonlinear_arith)
                requires
                    oe == oy * oy + ox * ox - rr * rr + 2 * (rr - ox) + 2 * oy,
                    y == oy + 1,
                    (x == ox && err == oe + 1 + 2 * y) || (x == ox - 1 && err == oe + 1 + 2 * y + 1 - 2 * x);
            assert(rest == spokes(cx as int, cy as int, ox, oy, xd as int, yd as int) + arc_from(cx as int, cy as int, xd as int, yd as int, x as int, y as int, err as int));
            assert(out@ + arc_from(cx as int, cy as int, xd as int, yd as int, x as int, y as int, err as int) =~= whole);
        }
    }
    proof {
        assert(arc_from(cx as int, cy as int, xd as int, yd as int, x as int, y as int, err as int) =~= Seq::<Segment>::empty());
        assert(out@ =~= whole);
    }
    Ok(out)
}

} // verus!
