use vstd::prelude::*;
use crate::css::{clamp_i32, div_toward_zero};
use crate::layout::{NodeLayoutInfo, flow_inline_spec};
use crate::text::{push_char, slice_text};

verus! {

/// The horizontal advance of the first entry for `c`.
pub open spec fn advance_of(adv: Seq<(char, u16)>, c: char) -> Option<u16>
    decreases adv.len(),
{
    if adv.len() == 0 {
        None
    } else if adv[0].0 == c {
        Some(adv[0].1)
    } else {
        advance_of(adv.drop_first(), c)
    }
}

/// The width of a glyph of advance `a` at line height `lh`, in pixels.
pub open spec fn glyph_width(a: int, lh: int, upem: int) -> i32 {
    clamp_i32(div_toward_zero(a * lh, upem))
}

/// The content flow after the characters of `text` are placed one after
/// another as inline items, each as wide as its glyph and one line high;
/// characters without a glyph take no place.
pub open spec fn text_flow(v: Seq<Option<i32>>, upem: int, adv: Seq<(char, u16)>, text: Seq<char>, lh: int) -> Seq<Option<i32>>
    decreases text.len(),
{
    if text.len() == 0 {
        v
    } else {
        let v1 = text_flow(v, upem, adv, text.drop_last(), lh);
        match advance_of(adv, text.last()) {
            Some(a) => flow_inline_spec(v1, glyph_width(a as int, lh, upem) as int, lh).0,
            None => v1,
        }
    }
}

/// The metrics of a font that text layout reads: units per em and the
/// horizontal advance of each glyph, in font units.
#[derive(Debug, Clone)]
pub struct FontMetrics {
    pub units_per_em: u16,
    pub advances: Vec<(char, u16)>,
}

impl FontMetrics {
    pub open spec fn wf(&self) -> bool {
        self.units_per_em >= 1
    }

    /// The advance of the glyph for `c`, if the font has one.
    pub fn advance(&self, c: char) -> (r: Option<u16>)
        ensures
            r == advance_of(self.advances@, c),
    {
        let ghost a = self.advances@;
        let mut i: usize = 0;
        assert(a.subrange(0, a.len() as int) =~= a);
        while i < self.advances.len()
            invariant
                a == self.advances@,
                i <= a.len(),
                advance_of(a, c) == advance_of(a.subrange(i as int, a.len() as int), c),
            decreases a.len() - i,
        {
            if self.advances[i].0 == c {
                assert(a.subrange(i as int, a.len() as int)[0] == a[i as int]);
                return Some(self.advances[i].1);
            }
            assert(a.subrange(i as int, a.len() as int).drop_first() =~= a.subrange(i + 1, a.len() as int));
            i += 1;
        }
        assert(a.subrange(i as int, a.len() as int) =~= Seq::<(char, u16)>::empty());
        None
    }

    /// Places the characters of `text` into the content flow of `parent`,
    /// each as an inline item one line high.
    pub fn text_layout(&self, text: &str, line_height: i32, parent: &mut NodeLayoutInfo)
        requires
            self.wf(),
            old(parent).wf(),
        ensures
            final(parent).wf(),
            final(parent)@ == text_flow(old(parent)@, self.units_per_em as int, self.advances@, text@, line_height as int),
    {
        let n = text.unicode_len();
        let mut i: usize = 0;
        let ghost start = parent@;
        while i < n
            invariant
                n == text@.len(),
                i <= n,
                self.wf(),
                parent.wf(),
                parent@ == text_flow(start, self.units_per_em as int, self.advances@, text@.subrange(0, i as int), line_height as int),
            decreases n - i,
        {
            let c = text.get_char(i);
            proof {
                assert(text@.subrange(0, i + 1).drop_last() =~= text@.subrange(0, i as int));
            }
            if let Some(a) = self.advance(c) {
                let w = glyph_advance_width(a, line_height, self.units_per_em);
                parent.reverse_flow_inline(w, line_height);
            }
            i += 1;
        }
        assert(text@.subrange(0, n as int) =~= text@);
    }
}

/// The width in pixels of a glyph of advance `a` at line height `lh`.
pub fn glyph_advance_width(a: u16, lh: i32, upem: u16) -> (r: i32)
    requires
        upem >= 1,
    ensures
        r == glyph_width(a as int, lh as int, upem as int),
{
    assert(-65536 * 2147483648 <= (a as int) * (lh as int) <= 65536 * 2147483648) by (nonlinear_arith)
        requires
            0 <= a <= 65535,
            -2147483648 <= lh <= 2147483647;
    let p: i64 = a as i64 * lh as i64;
    let q: i64 = if p >= 0 {
        p / upem as i64
    } else {
        -((-p) / upem as i64)
    };
    if q < i32::MIN as i64 {
        i32::MIN
    } else if q > i32::MAX as i64 {
        i32::MAX
    } else {
        q as i32
    }
}

/// ttf-parser's font face, held opaque: its data is read only through the
/// wrappers below.
#[verifier::external_type_specification]
#[verifier::external_body]
pub struct ExFace<'a>(ttf_parser::Face<'a>);

/// Relies on `ttf_parser::Face::parse`: the face at `index` of the font
/// data, if it can be read.
#[verifier::external_body]
fn parse_face<'a>(data: &'a [u8], index: u32) -> (r: Option<ttf_parser::Face<'a>>) {
    ttf_parser::Face::parse(data, index).ok()
}

/// Relies on `ttf_parser::Face::units_per_em`, documented to lie in
/// `16..=16384`.
#[verifier::external_body]
fn face_units_per_em(face: &ttf_parser::Face) -> (r: u16)
    ensures
        16 <= r <= 16384,
{
    face.units_per_em()
}

/// Relies on `ttf_parser::Face::glyph_index`: the glyph for a character,
/// if the face has one.
#[verifier::external_body]
fn face_glyph_index(face: &ttf_parser::Face, c: char) -> (r: Option<u16>) {
    face.glyph_index(c).map(|g| g.0)
}

/// Relies on `ttf_parser::Face::glyph_hor_advance`: a glyph's horizontal
/// advance in font units, if the face has one.
#[verifier::external_body]
fn face_glyph_hor_advance(face: &ttf_parser::Face, glyph: u16) -> (r: Option<u16>) {
    face.glyph_hor_advance(ttf_parser::GlyphId(glyph))
}

/// The faces of a font file, by index, and the index in use.
pub struct Font<'a> {
    pub faces: Vec<(u32, ttf_parser::Face<'a>)>,
    pub used_index: u32,
}

impl<'a> Font<'a> {
    pub open spec fn face_indices(&self) -> Seq<u32> {
        self.faces@.map_values(|f: (u32, ttf_parser::Face<'a>)| f.0)
    }

    /// Reads the faces `min..max` of the font data; the ones that cannot be
    /// read are left out. Face 0 is in use.
    pub fn new(data: &'a [u8], min: u32, max: u32) -> (r: Font<'a>)
        ensures
            r.used_index == 0,
            forall|k: int| 0 <= k < r.face_indices().len() ==> min <= #[trigger] r.face_indices()[k] < max,
    {
        let mut faces: Vec<(u32, ttf_parser::Face<'a>)> = Vec::new();
        let mut index = min;
        while index < max
            invariant
                min <= index,
                forall|k: int| 0 <= k < faces@.len() ==> min <= (#[trigger] faces@[k]).0 < index && faces@[k].0 < max,
            decreases max - index,
        {
            if let Some(face) = parse_face(data, index) {
                faces.push((index, face));
            }
            index += 1;
        }
        let r = Font { faces, used_index: 0 };
        assert forall|k: int| 0 <= k < r.face_indices().len() implies min <= #[trigger] r.face_indices()[k] < max by {
            assert(r.face_indices()[k] == r.faces@[k].0);
        }
        r
    }

    /// The face in use, if it was read.
    pub fn face(&self) -> (r: Option<&ttf_parser::Face<'a>>)
        ensures
            r is Some <==> self.face_indices().contains(self.used_index),
    {
        let mut i: usize = 0;
        while i < self.faces.len()
            invariant
                i <= self.faces@.len(),
                forall|k: int| 0 <= k < i ==> (#[trigger] self.faces@[k]).0 != self.used_index,
            decreases self.faces@.len() - i,
        {
            if self.faces[i].0 == self.used_index {
                assert(self.face_indices()[i as int] == self.used_index);
                return Some(&self.faces[i].1);
            }
            i += 1;
        }
        assert(!self.face_indices().contains(self.used_index)) by {
            if self.face_indices().contains(self.used_index) {
                let k = choose|k: int| 0 <= k < self.face_indices().len() && self.face_indices()[k] == self.used_index;
                assert(self.faces@[k].0 == self.used_index);
            }
        }
        None
    }

    /// The metrics that text layout reads for the characters of `text`,
    /// from the face in use: a character with a glyph gets its advance (zero
    /// when the face gives none), one without a glyph gets no entry.
    pub fn metrics(&self, text: &str) -> (r: Option<FontMetrics>)
        ensures
            r is Some <==> self.face_indices().contains(self.used_index),
            r matches Some(m) ==> m.wf() && 16 <= m.units_per_em <= 16384
                && forall|k: int| 0 <= k < m.advances@.len() ==> text@.contains(#[trigger] m.advances@[k].0),
    {
        let face = match self.face() {
            Some(f) => f,
            None => {
                return None;
            },
        };
        let units_per_em = face_units_per_em(face);
        let mut advances: Vec<(char, u16)> = Vec::new();
        let n = text.unicode_len();
        let mut i: usize = 0;
        while i < n
            invariant
                n == text@.len(),
                i <= n,
                forall|k: int| 0 <= k < advances@.len() ==> text@.contains(#[trigger] advances@[k].0),
            decreases n - i,
        {
            let c = text.get_char(i);
            if let Some(glyph) = face_glyph_index(face, c) {
                let advance = match face_glyph_hor_advance(face, glyph) {
                    Some(a) => a,
                    None => 0,
                };
                assert(text@[i as int] == c);
                advances.push((c, advance));
            }
            i += 1;
        }
        Some(FontMetrics { units_per_em, advances })
    }
}

/// Where breaking a text into lines stands: the pen position, the position
/// of the last break opportunity on the line, the widest line so far, the
/// finished lines, the current line, and glyph counts (all glyphs, at the
/// line's start, at the break opportunity).
pub struct BreakState {
    pub x: int,
    pub y: int,
    pub break_x: int,
    pub max_x: int,
    pub lines: Seq<Seq<char>>,
    pub cur: Seq<char>,
    pub i: int,
    pub i0: int,
    pub bi: int,
}

pub open spec fn clamp_count(k: int, n: int) -> int {
    if k < 0 {
        0
    } else if k > n {
        n
    } else {
        k
    }
}

/// One character of text being broken into lines. A character without a
/// glyph is skipped. One of `breaks` marks a break opportunity. A glyph that
/// would pass `max_w` moves the pen back to the last opportunity and, when
/// there was one on the line, starts a new line with the characters after
/// it; the glyph is then placed, so a line with no opportunity grows past
/// the width. A newline starts a new line. Any other glyph is placed.
pub open spec fn break_step(
    st: BreakState,
    c: char,
    upem: int,
    adv: Seq<(char, u16)>,
    lh: int,
    max_w: Option<i32>,
    breaks: Seq<char>,
) -> BreakState {
    match advance_of(adv, c) {
        None => st,
        Some(a) => {
            let w = glyph_width(a as int, lh, upem) as int;
            let bx = if breaks.contains(c) { st.x } else { st.break_x };
            let bi = if breaks.contains(c) { st.i } else { st.bi };
            let next = if max_w is Some && st.x + w > max_w->Some_0 {
                break_overflow(st, bx, bi, lh, c, w)
            } else if c == '\n' {
                break_newline(st, lh)
            } else {
                BreakState { x: clamp_i32(st.x + w) as int, cur: st.cur.push(c), break_x: bx, bi, ..st }
            };
            BreakState { i: next.i + 1, ..next }
        },
    }
}

/// A glyph of width `w` passes the width: the pen moves back to the break
/// opportunity `bx`, and when there is one the line ends there; then the
/// glyph is placed.
pub open spec fn break_overflow(st: BreakState, bx: int, bi: int, lh: int, c: char, w: int) -> BreakState {
    let mx = crate::layout::max_int(st.max_x, st.x);
    let x = clamp_i32(st.x - bx) as int;
    let moved = if bx > 0 {
        let k = clamp_count(bi - st.i0, st.cur.len() as int);
        BreakState {
            x,
            y: clamp_i32(st.y + lh) as int,
            break_x: 0,
            max_x: mx,
            lines: st.lines.push(st.cur.take(k)),
            cur: st.cur.skip(k),
            i0: st.i,
            bi: st.i,
            ..st
        }
    } else {
        BreakState { x, break_x: bx, max_x: mx, bi, ..st }
    };
    BreakState { x: clamp_i32(moved.x + w) as int, cur: moved.cur.push(c), ..moved }
}

/// A newline ends the line.
pub open spec fn break_newline(st: BreakState, lh: int) -> BreakState {
    BreakState {
        x: 0,
        y: clamp_i32(st.y + lh) as int,
        break_x: 0,
        max_x: crate::layout::max_int(st.max_x, st.x),
        lines: st.lines.push(st.cur),
        cur: Seq::empty(),
        i0: st.i,
        bi: st.i,
        ..st
    }
}

pub open spec fn break_scan(
    text: Seq<char>,
    start: BreakState,
    upem: int,
    adv: Seq<(char, u16)>,
    lh: int,
    max_w: Option<i32>,
    breaks: Seq<char>,
) -> BreakState
    decreases text.len(),
{
    if text.len() == 0 {
        start
    } else {
        break_step(break_scan(text.drop_last(), start, upem, adv, lh, max_w, breaks), text.last(), upem, adv, lh, max_w, breaks)
    }
}

/// Text broken into lines, with the widest line's right edge, the height
/// of the lines above the last, and where the pen ended.
#[derive(Debug)]
pub struct TextLines {
    pub lines: Vec<String>,
    pub width: i32,
    pub height: i32,
    pub end_x: i32,
    pub end_y: i32,
}

fn contains_char(v: &Vec<char>, c: char) -> (r: bool)
    ensures
        r == v@.contains(c),
{
    let mut i: usize = 0;
    while i < v.len()
        invariant
            i <= v@.len(),
            forall|k: int| 0 <= k < i ==> v@[k] != c,
        decreases v@.len() - i,
    {
        if v[i] == c {
            return true;
        }
        i += 1;
    }
    false
}

fn clamp_to_i32(v: i64) -> (r: i32)
    ensures
        r == clamp_i32(v as int),
{
    if v < i32::MIN as i64 {
        i32::MIN
    } else if v > i32::MAX as i64 {
        i32::MAX
    } else {
        v as i32
    }
}

impl FontMetrics {
    /// Breaks `text` into lines drawn from `(x0, y0)`, one `line_height`
    /// apart, breaking only at characters of `break_on` when a glyph would
    /// pass `max_width`.
    pub fn break_text(&self, text: &str, line_height: i32, x0: i32, y0: i32, max_width: Option<i32>, break_on: &Vec<char>) -> (r: TextLines)
        requires
            self.wf(),
        ensures
            ({
                let start = BreakState { x: x0 as int, y: y0 as int, break_x: 0, max_x: 0, lines: Seq::empty(), cur: Seq::empty(), i: 0, i0: 0, bi: 0 };
                let st = break_scan(text@, start, self.units_per_em as int, self.advances@, line_height as int, max_width, break_on@);
                &&& r.lines@.map_values(|l: String| l@) == st.lines.push(st.cur)
                &&& r.width == crate::layout::max_int(st.max_x, st.x)
                &&& r.height == clamp_i32(st.y - y0)
                &&& r.end_x == st.x
                &&& r.end_y == st.y
            }),
    {
        let ghost upem = self.units_per_em as int;
        let ghost start = BreakState { x: x0 as int, y: y0 as int, break_x: 0, max_x: 0, lines: Seq::empty(), cur: Seq::empty(), i: 0, i0: 0, bi: 0 };
        let lh = line_height as i64;
        let mut x: i64 = x0 as i64;
        let mut y: i64 = y0 as i64;
        let mut break_x: i64 = 0;
        let mut max_x: i64 = 0;
        let mut lines: Vec<String> = Vec::new();
        let mut cur = String::new();
        let mut i: usize = 0;
        let mut i0: usize = 0;
        let mut bi: usize = 0;
        let n = text.unicode_len();
        let mut j: usize = 0;
        assert(text@.subrange(0, 0) =~= Seq::<char>::empty());
        assert(lines@.map_values(|l: String| l@) =~= Seq::<Seq<char>>::empty());
        while j < n
            invariant
                n == text@.len(),
                j <= n,
                self.wf(),
                lh == line_height,
                upem == self.units_per_em as int,
                start == (BreakState { x: x0 as int, y: y0 as int, break_x: 0, max_x: 0, lines: Seq::empty(), cur: Seq::empty(), i: 0, i0: 0, bi: 0 }),
                i <= j,
                i0 <= i,
                bi <= i,
                i32::MIN <= x <= i32::MAX,
                i32::MIN <= y <= i32::MAX,
                i32::MIN <= break_x <= i32::MAX,
                0 <= max_x <= i32::MAX,
                ({
                    let st = break_scan(text@.subrange(0, j as int), start, upem, self.advances@, line_height as int, max_width, break_on@);
                    &&& st.x == x && st.y == y && st.break_x == break_x && st.max_x == max_x
                    &&& st.lines == lines@.map_values(|l: String| l@)
                    &&& st.cur == cur@
                    &&& st.i == i && st.i0 == i0 && st.bi == bi
                }),
            decreases n - j,
        {
            let c = text.get_char(j);
            proof {
                assert(text@.subrange(0, j + 1).drop_last() =~= text@.subrange(0, j as int));
                assert(text@.subrange(0, j + 1).last() == c);
            }
            let ghost st0 = break_scan(text@.subrange(0, j as int), start, upem, self.advances@, line_height as int, max_width, break_on@);
            let ghost st1 = break_step(st0, c, upem, self.advances@, line_height as int, max_width, break_on@);
            if let Some(a) = self.advance(c) {
                let w = glyph_advance_width(a, line_height, self.units_per_em) as i64;
                let ghost bx = if break_on@.contains(c) { st0.x } else { st0.break_x };
                let ghost bi0 = if break_on@.contains(c) { st0.i } else { st0.bi };
                if contains_char(break_on, c) {
                    break_x = x;
                    bi = i;
                }
                let passes = match max_width {
                    Some(m) => x + w > m as i64,
                    None => false,
                };
                if passes {
                    if x > max_x {
                        max_x = x;
                    }
                    x = clamp_to_i32(x - break_x) as i64;
                    if break_x > 0 {
                        y = clamp_to_i32(y + lh) as i64;
                        break_x = 0;
                        let len = cur.unicode_len();
                        let k: usize = if bi < i0 { 0 } else if bi - i0 > len { len } else { bi - i0 };
                        let head = slice_text(cur.as_str(), 0, k);
                        let tail = slice_text(cur.as_str(), k, len);
                        let ghost before = lines@;
                        proof {
                            assert(head@ =~= cur@.take(k as int));
                            assert(tail@ =~= cur@.skip(k as int));
                        }
                        lines.push(head);
                        assert(lines@.map_values(|l: String| l@) =~= before.map_values(|l: String| l@).push(cur@.take(k as int)));
                        cur = tail;
                        i0 = i;
                        bi = i;
                    }
                    x = clamp_to_i32(x + w) as i64;
                    push_char(&mut cur, c);
                    assert(break_overflow(st0, bx, bi0, line_height as int, c, w as int) == BreakState { x: x as int, y: y as int, break_x: break_x as int, max_x: max_x as int, lines: lines@.map_values(|l: String| l@), cur: cur@, i: st0.i, i0: i0 as int, bi: bi as int });
                    assert(st1 == BreakState { x: x as int, y: y as int, break_x: break_x as int, max_x: max_x as int, lines: lines@.map_values(|l: String| l@), cur: cur@, i: st0.i + 1, i0: i0 as int, bi: bi as int });
                } else if c == '\n' {
                    if x > max_x {
                        max_x = x;
                    }
                    x = 0;
                    break_x = 0;
                    i0 = i;
                    bi = i;
                    y = clamp_to_i32(y + lh) as i64;
                    let ghost before = lines@;
                    let done = cur;
                    let ghost dv = done@;
                    lines.push(done);
                    assert(lines@.map_values(|l: String| l@) =~= before.map_values(|l: String| l@).push(dv));
                    cur = String::new();
                    assert(cur@ =~= Seq::<char>::empty());
                    assert(break_newline(st0, line_height as int) == BreakState { x: x as int, y: y as int, break_x: break_x as int, max_x: max_x as int, lines: lines@.map_values(|l: String| l@), cur: cur@, i: st0.i, i0: i0 as int, bi: bi as int });
                    assert(st1 == BreakState { x: x as int, y: y as int, break_x: break_x as int, max_x: max_x as int, lines: lines@.map_values(|l: String| l@), cur: cur@, i: st0.i + 1, i0: i0 as int, bi: bi as int });
                } else {
                    x = clamp_to_i32(x + w) as i64;
                    push_char(&mut cur, c);
                    assert(st1 == BreakState { x: x as int, y: y as int, break_x: break_x as int, max_x: max_x as int, lines: lines@.map_values(|l: String| l@), cur: cur@, i: st0.i + 1, i0: i0 as int, bi: bi as int });
                }
                i += 1;
            }
            proof {
                assert(break_scan(text@.subrange(0, j + 1), start, upem, self.advances@, line_height as int, max_width, break_on@) == st1);
            }
            j += 1;
        }
        assert(text@.subrange(0, n as int) =~= text@);
        let ghost before = lines@;
        let last = cur;
        let ghost lv = last@;
        lines.push(last);
        assert(lines@.map_values(|l: String| l@) =~= before.map_values(|l: String| l@).push(lv));
        if x > max_x {
            max_x = x;
        }
        TextLines { lines, width: max_x as i32, height: clamp_to_i32(y - y0 as i64), end_x: x as i32, end_y: y as i32 }
    }
}

} // verus!
