use vstd::prelude::*;
use crate::css::clamp_i32;
use crate::text::same_text;

verus! {

/// Error for a name that is no layout slot.
#[derive(Debug)]
pub struct LayoutErr;

/// The slots of a node's layout record.
#[derive(Clone, Copy, Debug, PartialEq, Eq, Structural)]
pub enum LayoutValue {
    X,
    Y,
    Width,
    Height,
    FontSize,
    PaddingTop,
    PaddingBottom,
    PaddingLeft,
    PaddingRight,
    BorderTopWidth,
    BorderBottomWidth,
    BorderLeftWidth,
    BorderRightWidth,
    MarginTop,
    MarginBottom,
    MarginLeft,
    MarginRight,
    ContentX,
    ContentY,
    ContentWidth,
    ContentHeight,
    ContentLineWidth,
    ContentLineHeight,
    MaskedX,
    MaskedY,
    MaskedWidth,
    MaskedHeight,
    BorderTopLeftRadius,
    BorderTopRightRadius,
    BorderBottomLeftRadius,
    BorderBottomRightRadius,
    MaxValue,
}

/// Number of slots in a layout record.
pub const SLOT_COUNT: usize = 31;

impl LayoutValue {
    /// Position of the slot in a layout record; `MaxValue` is the count.
    pub open spec fn idx(self) -> int {
        match self {
            LayoutValue::X => 0,
            LayoutValue::Y => 1,
            LayoutValue::Width => 2,
            LayoutValue::Height => 3,
            LayoutValue::FontSize => 4,
            LayoutValue::PaddingTop => 5,
            LayoutValue::PaddingBottom => 6,
            LayoutValue::PaddingLeft => 7,
            LayoutValue::PaddingRight => 8,
            LayoutValue::BorderTopWidth => 9,
            LayoutValue::BorderBottomWidth => 10,
            LayoutValue::BorderLeftWidth => 11,
            LayoutValue::BorderRightWidth => 12,
            LayoutValue::MarginTop => 13,
            LayoutValue::MarginBottom => 14,
            LayoutValue::MarginLeft => 15,
            LayoutValue::MarginRight => 16,
            LayoutValue::ContentX => 17,
            LayoutValue::ContentY => 18,
            LayoutValue::ContentWidth => 19,
            LayoutValue::ContentHeight => 20,
            LayoutValue::ContentLineWidth => 21,
            LayoutValue::ContentLineHeight => 22,
            LayoutValue::MaskedX => 23,
            LayoutValue::MaskedY => 24,
            LayoutValue::MaskedWidth => 25,
            LayoutValue::MaskedHeight => 26,
            LayoutValue::BorderTopLeftRadius => 27,
            LayoutValue::BorderTopRightRadius => 28,
            LayoutValue::BorderBottomLeftRadius => 29,
            LayoutValue::BorderBottomRightRadius => 30,
            LayoutValue::MaxValue => 31,
        }
    }

    pub open spec fn at(i: int) -> LayoutValue {
        if i == 0 {
            LayoutValue::X
        } else if i == 1 {
            LayoutValue::Y
        } else if i == 2 {
            LayoutValue::Width
        } else if i == 3 {
            LayoutValue::Height
        } else if i == 4 {
            LayoutValue::FontSize
        } else if i == 5 {
            LayoutValue::PaddingTop
        } else if i == 6 {
            LayoutValue::PaddingBottom
        } else if i == 7 {
            LayoutValue::PaddingLeft
        } else if i == 8 {
            LayoutValue::PaddingRight
        } else if i == 9 {
            LayoutValue::BorderTopWidth
        } else if i == 10 {
            LayoutValue::BorderBottomWidth
        } else if i == 11 {
            LayoutValue::BorderLeftWidth
        } else if i == 12 {
            LayoutValue::BorderRightWidth
        } else if i == 13 {
            LayoutValue::MarginTop
        } else if i == 14 {
            LayoutValue::MarginBottom
        } else if i == 15 {
            LayoutValue::MarginLeft
        } else if i == 16 {
            LayoutValue::MarginRight
        } else if i == 17 {
            LayoutValue::ContentX
        } else if i == 18 {
            LayoutValue::ContentY
        } else if i == 19 {
            LayoutValue::ContentWidth
        } else if i == 20 {
            LayoutValue::ContentHeight
        } else if i == 21 {
            LayoutValue::ContentLineWidth
        } else if i == 22 {
            LayoutValue::ContentLineHeight
        } else if i == 23 {
            LayoutValue::MaskedX
        } else if i == 24 {
            LayoutValue::MaskedY
        } else if i == 25 {
            LayoutValue::MaskedWidth
        } else if i == 26 {
            LayoutValue::MaskedHeight
        } else if i == 27 {
            LayoutValue::BorderTopLeftRadius
        } else if i == 28 {
            LayoutValue::BorderTopRightRadius
        } else if i == 29 {
            LayoutValue::BorderBottomLeftRadius
        } else if i == 30 {
            LayoutValue::BorderBottomRightRadius
        } else {
            LayoutValue::MaxValue
        }
    }

    /// Whether the slot is set from a style property.
    pub open spec fn has_property(self) -> bool {
        match self {
            LayoutValue::Width => true,
            LayoutValue::Height => true,
            LayoutValue::FontSize => true,
            LayoutValue::PaddingTop => true,
            LayoutValue::PaddingBottom => true,
            LayoutValue::PaddingLeft => true,
            LayoutValue::PaddingRight => true,
            LayoutValue::BorderTopWidth => true,
            LayoutValue::BorderBottomWidth => true,
            LayoutValue::BorderLeftWidth => true,
            LayoutValue::BorderRightWidth => true,
            LayoutValue::MarginTop => true,
            LayoutValue::MarginBottom => true,
            LayoutValue::MarginLeft => true,
            LayoutValue::MarginRight => true,
            LayoutValue::BorderTopLeftRadius => true,
            LayoutValue::BorderTopRightRadius => true,
            LayoutValue::BorderBottomLeftRadius => true,
            LayoutValue::BorderBottomRightRadius => true,
            _ => false,
        }
    }

    /// The style property a slot is set from.
    pub open spec fn property(self) -> Seq<char> {
        match self {
            LayoutValue::Width => "width"@,
            LayoutValue::Height => "height"@,
            LayoutValue::FontSize => "font-size"@,
            LayoutValue::PaddingTop => "padding-top"@,
            LayoutValue::PaddingBottom => "padding-bottom"@,
            LayoutValue::PaddingLeft => "padding-left"@,
            LayoutValue::PaddingRight => "padding-right"@,
            LayoutValue::BorderTopWidth => "border-top-width"@,
            LayoutValue::BorderBottomWidth => "border-bottom-width"@,
            LayoutValue::BorderLeftWidth => "border-left-width"@,
            LayoutValue::BorderRightWidth => "border-right-width"@,
            LayoutValue::MarginTop => "margin-top"@,
            LayoutValue::MarginBottom => "margin-bottom"@,
            LayoutValue::MarginLeft => "margin-left"@,
            LayoutValue::MarginRight => "margin-right"@,
            LayoutValue::BorderTopLeftRadius => "border-top-left-radius"@,
            LayoutValue::BorderTopRightRadius => "border-top-right-radius"@,
            LayoutValue::BorderBottomLeftRadius => "border-bottom-left-radius"@,
            LayoutValue::BorderBottomRightRadius => "border-bottom-right-radius"@,
            _ => Seq::empty(),
        }
    }

    pub fn index(&self) -> (r: usize)
        ensures
            r == self.idx(),
    {
        match self {
            LayoutValue::X => 0,
            LayoutValue::Y => 1,
            LayoutValue::Width => 2,
            LayoutValue::Height => 3,
            LayoutValue::FontSize => 4,
            LayoutValue::PaddingTop => 5,
            LayoutValue::PaddingBottom => 6,
            LayoutValue::PaddingLeft => 7,
            LayoutValue::PaddingRight => 8,
            LayoutValue::BorderTopWidth => 9,
            LayoutValue::BorderBottomWidth => 10,
            LayoutValue::BorderLeftWidth => 11,
            LayoutValue::BorderRightWidth => 12,
            LayoutValue::MarginTop => 13,
            LayoutValue::MarginBottom => 14,
            LayoutValue::MarginLeft => 15,
            LayoutValue::MarginRight => 16,
            LayoutValue::ContentX => 17,
            LayoutValue::ContentY => 18,
            LayoutValue::ContentWidth => 19,
            LayoutValue::ContentHeight => 20,
            LayoutValue::ContentLineWidth => 21,
            LayoutValue::ContentLineHeight => 22,
            LayoutValue::MaskedX => 23,
            LayoutValue::MaskedY => 24,
            LayoutValue::MaskedWidth => 25,
            LayoutValue::MaskedHeight => 26,
            LayoutValue::BorderTopLeftRadius => 27,
            LayoutValue::BorderTopRightRadius => 28,
            LayoutValue::BorderBottomLeftRadius => 29,
            LayoutValue::BorderBottomRightRadius => 30,
            LayoutValue::MaxValue => 31,
        }
    }

    pub fn from_index(i: usize) -> (r: LayoutValue)
        requires
            i <= SLOT_COUNT,
        ensures
            r.idx() == i,
            r == LayoutValue::at(i as int),
    {
        match i {
            0 => LayoutValue::X,
            1 => LayoutValue::Y,
            2 => LayoutValue::Width,
            3 => LayoutValue::Height,
            4 => LayoutValue::FontSize,
            5 => LayoutValue::PaddingTop,
            6 => LayoutValue::PaddingBottom,
            7 => LayoutValue::PaddingLeft,
            8 => LayoutValue::PaddingRight,
            9 => LayoutValue::BorderTopWidth,
            10 => LayoutValue::BorderBottomWidth,
            11 => LayoutValue::BorderLeftWidth,
            12 => LayoutValue::BorderRightWidth,
            13 => LayoutValue::MarginTop,
            14 => LayoutValue::MarginBottom,
            15 => LayoutValue::MarginLeft,
            16 => LayoutValue::MarginRight,
            17 => LayoutValue::ContentX,
            18 => LayoutValue::ContentY,
            19 => LayoutValue::ContentWidth,
            20 => LayoutValue::ContentHeight,
            21 => LayoutValue::ContentLineWidth,
            22 => LayoutValue::ContentLineHeight,
            23 => LayoutValue::MaskedX,
            24 => LayoutValue::MaskedY,
            25 => LayoutValue::MaskedWidth,
            26 => LayoutValue::MaskedHeight,
            27 => LayoutValue::BorderTopLeftRadius,
            28 => LayoutValue::BorderTopRightRadius,
            29 => LayoutValue::BorderBottomLeftRadius,
            30 => LayoutValue::BorderBottomRightRadius,
            _ => LayoutValue::MaxValue,
        }
    }

    /// The slot set from the style property `s`.
    pub fn from_str(s: &str) -> (r: Result<LayoutValue, LayoutErr>)
        ensures
            match r {
                Ok(v) => v.has_property() && v.property() == s@,
                Err(_) => forall|v: LayoutValue| v.has_property() ==> #[trigger] v.property() != s@,
            },
    {
        if same_text(s, "width") {
            return Ok(LayoutValue::Width);
        }
        if same_text(s, "height") {
            return Ok(LayoutValue::Height);
        }
        if same_text(s, "font-size") {
            return Ok(LayoutValue::FontSize);
        }
        if same_text(s, "padding-top") {
            return Ok(LayoutValue::PaddingTop);
        }
        if same_text(s, "padding-bottom") {
            return Ok(LayoutValue::PaddingBottom);
        }
        if same_text(s, "padding-left") {
            return Ok(LayoutValue::PaddingLeft);
        }
        if same_text(s, "padding-right") {
            return Ok(LayoutValue::PaddingRight);
        }
        if same_text(s, "border-top-width") {
            return Ok(LayoutValue::BorderTopWidth);
        }
        if same_text(s, "border-bottom-width") {
            return Ok(LayoutValue::BorderBottomWidth);
        }
        if same_text(s, "border-left-width") {
            return Ok(LayoutValue::BorderLeftWidth);
        }
        if same_text(s, "border-right-width") {
            return Ok(LayoutValue::BorderRightWidth);
        }
        if same_text(s, "margin-top") {
            return Ok(LayoutValue::MarginTop);
        }
        if same_text(s, "margin-bottom") {
            return Ok(LayoutValue::MarginBottom);
        }
        if same_text(s, "margin-left") {
            return Ok(LayoutValue::MarginLeft);
        }
        if same_text(s, "margin-right") {
            return Ok(LayoutValue::MarginRight);
        }
        if same_text(s, "border-top-left-radius") {
            return Ok(LayoutValue::BorderTopLeftRadius);
        }
        if same_text(s, "border-top-right-radius") {
            return Ok(LayoutValue::BorderTopRightRadius);
        }
        if same_text(s, "border-bottom-left-radius") {
            return Ok(LayoutValue::BorderBottomLeftRadius);
        }
        if same_text(s, "border-bottom-right-radius") {
            return Ok(LayoutValue::BorderBottomRightRadius);
        }
        proof {
            assert forall|v: LayoutValue| v.has_property() implies #[trigger] v.property() != s@ by {
                match v {
                    LayoutValue::X => {},
                    LayoutValue::Y => {},
                    LayoutValue::Width => {},
                    LayoutValue::Height => {},
                    LayoutValue::FontSize => {},
                    LayoutValue::PaddingTop => {},
                    LayoutValue::PaddingBottom => {},
                    LayoutValue::PaddingLeft => {},
                    LayoutValue::PaddingRight => {},
                    LayoutValue::BorderTopWidth => {},
                    LayoutValue::BorderBottomWidth => {},
                    LayoutValue::BorderLeftWidth => {},
                    LayoutValue::BorderRightWidth => {},
                    LayoutValue::MarginTop => {},
                    LayoutValue::MarginBottom => {},
                    LayoutValue::MarginLeft => {},
                    LayoutValue::MarginRight => {},
                    LayoutValue::ContentX => {},
                    LayoutValue::ContentY => {},
                    LayoutValue::ContentWidth => {},
                    LayoutValue::ContentHeight => {},
                    LayoutValue::ContentLineWidth => {},
                    LayoutValue::ContentLineHeight => {},
                    LayoutValue::MaskedX => {},
                    LayoutValue::MaskedY => {},
                    LayoutValue::MaskedWidth => {},
                    LayoutValue::MaskedHeight => {},
                    LayoutValue::BorderTopLeftRadius => {},
                    LayoutValue::BorderTopRightRadius => {},
                    LayoutValue::BorderBottomLeftRadius => {},
                    LayoutValue::BorderBottomRightRadius => {},
                    LayoutValue::MaxValue => {},
                }
            }
        }
        Err(LayoutErr)
    }

    /// The name of the style property the slot is set from.
    pub fn to_string(&self) -> (r: String)
        requires
            self.has_property(),
        ensures
            r@ == self.property(),
    {
        let t: &str = match self {
            LayoutValue::Width => "width",
            LayoutValue::Height => "height",
            LayoutValue::FontSize => "font-size",
            LayoutValue::PaddingTop => "padding-top",
            LayoutValue::PaddingBottom => "padding-bottom",
            LayoutValue::PaddingLeft => "padding-left",
            LayoutValue::PaddingRight => "padding-right",
            LayoutValue::BorderTopWidth => "border-top-width",
            LayoutValue::BorderBottomWidth => "border-bottom-width",
            LayoutValue::BorderLeftWidth => "border-left-width",
            LayoutValue::BorderRightWidth => "border-right-width",
            LayoutValue::MarginTop => "margin-top",
            LayoutValue::MarginBottom => "margin-bottom",
            LayoutValue::MarginLeft => "margin-left",
            LayoutValue::MarginRight => "margin-right",
            LayoutValue::BorderTopLeftRadius => "border-top-left-radius",
            LayoutValue::BorderTopRightRadius => "border-top-right-radius",
            LayoutValue::BorderBottomLeftRadius => "border-bottom-left-radius",
            LayoutValue::BorderBottomRightRadius => "border-bottom-right-radius",
            _ => "",
        };
        String::from_str(t)
    }
}

/// A slot of a record, as a sequence of optional values.
pub open spec fn slot(v: Seq<Option<i32>>, s: LayoutValue) -> Option<i32> {
    v[s.idx()]
}

/// A slot's value, with an unset slot read as zero.
pub open spec fn or_zero(o: Option<i32>) -> int {
    match o {
        Some(x) => x as int,
        None => 0,
    }
}

/// Sets a slot to `x`, clamped to the `i32` range.
pub open spec fn put(v: Seq<Option<i32>>, s: LayoutValue, x: int) -> Seq<Option<i32>> {
    v.update(s.idx(), Some(clamp_i32(x)))
}

pub open spec fn max_int(a: int, b: int) -> int {
    if a >= b {
        a
    } else {
        b
    }
}

/// Ends the current line: the content grows by the line (width as a
/// maximum, height as a sum), the content y offset moves past it, and the
/// line trackers and the x offset restart at zero.
pub open spec fn break_line_spec(v: Seq<Option<i32>>) -> Seq<Option<i32>> {
    let lw = or_zero(slot(v, LayoutValue::ContentLineWidth));
    let lh = or_zero(slot(v, LayoutValue::ContentLineHeight));
    let cw = or_zero(slot(v, LayoutValue::ContentWidth));
    let ch = or_zero(slot(v, LayoutValue::ContentHeight));
    put(
        put(
            put(
                put(
                    put(put(v, LayoutValue::ContentWidth, max_int(cw, lw)), LayoutValue::ContentHeight, ch + lh),
                    LayoutValue::ContentY,
                    -(ch + lh),
                ),
                LayoutValue::ContentX,
                0,
            ),
            LayoutValue::ContentLineWidth,
            0,
        ),
        LayoutValue::ContentLineHeight,
        0,
    )
}

/// Whether an inline child of width `w` breaks the line before it: the
/// record has a width, the current line is not empty, and the line with the
/// child would be wider than the record.
pub open spec fn inline_breaks(v: Seq<Option<i32>>, w: int) -> bool {
    let lw = or_zero(slot(v, LayoutValue::ContentLineWidth));
    slot(v, LayoutValue::Width) is Some && lw > 0 && lw + w > or_zero(slot(v, LayoutValue::Width))
}

/// Places an inline child of the given size on the current line, breaking
/// first where `inline_breaks` says so. The child's position is the running
/// offset before it on its line and the height of the lines above: its
/// place in the parent's content.
pub open spec fn flow_inline_spec(v: Seq<Option<i32>>, w: int, h: int) -> (Seq<Option<i32>>, (i32, i32)) {
    let v1 = if inline_breaks(v, w) {
        break_line_spec(v)
    } else {
        v
    };
    let cx = or_zero(slot(v1, LayoutValue::ContentX));
    let pos = (clamp_i32(-cx), clamp_i32(-or_zero(slot(v1, LayoutValue::ContentY))));
    let v2 = put(
        put(
            put(v1, LayoutValue::ContentX, cx - w),
            LayoutValue::ContentLineWidth,
            or_zero(slot(v1, LayoutValue::ContentLineWidth)) + w,
        ),
        LayoutValue::ContentLineHeight,
        max_int(or_zero(slot(v1, LayoutValue::ContentLineHeight)), h),
    );
    (v2, pos)
}

/// Places a block child on a line of its own.
pub open spec fn flow_block_spec(v: Seq<Option<i32>>, w: int, h: int) -> (Seq<Option<i32>>, (i32, i32)) {
    let v1 = break_line_spec(v);
    let pos = (
        clamp_i32(-or_zero(slot(v1, LayoutValue::ContentX))),
        clamp_i32(-or_zero(slot(v1, LayoutValue::ContentY))),
    );
    let v2 = put(put(v1, LayoutValue::ContentLineWidth, w), LayoutValue::ContentLineHeight, h);
    (break_line_spec(v2), pos)
}

fn clamp64(v: i64) -> (r: i32)
    ensures
        r == clamp_i32(v as int),
{
    if v < i32::MIN as i64 {
        i32::MIN
    } else if v > i32::MAX as i64 {
        i32::MAX
    } else {
        v as i32
    }
}

fn or_zero64(o: Option<i32>) -> (r: i64)
    ensures
        r == or_zero(o),
{
    match o {
        Some(x) => x as i64,
        None => 0,
    }
}

/// The resolved geometry of one node: one optional value per slot.
#[derive(Debug)]
pub struct NodeLayoutInfo {
    pub values: Vec<Option<i32>>,
}

impl View for NodeLayoutInfo {
    type V = Seq<Option<i32>>;

    open spec fn view(&self) -> Seq<Option<i32>> {
        self.values@
    }
}

impl NodeLayoutInfo {
    pub open spec fn wf(&self) -> bool {
        self.values@.len() == SLOT_COUNT
    }

    /// A record with every slot unset.
    pub fn new() -> (r: NodeLayoutInfo)
        ensures
            r.wf(),
            forall|i: int| 0 <= i < SLOT_COUNT ==> r@[i] is None,
    {
        NodeLayoutInfo { values: vec![None; SLOT_COUNT] }
    }

    pub fn is_set(&self, which: LayoutValue) -> (r: bool)
        requires
            self.wf(),
            which != LayoutValue::MaxValue,
        ensures
            r == slot(self@, which) is Some,
    {
        self.values[which.index()].is_some()
    }

    /// Whether every slot is set.
    pub fn is_complete(&self) -> (r: bool)
        ensures
            r == forall|i: int| 0 <= i < self@.len() ==> self@[i] is Some,
    {
        let mut i: usize = 0;
        while i < self.values.len()
            invariant
                i <= self.values.len(),
                forall|j: int| 0 <= j < i ==> self@[j] is Some,
            decreases self.values.len() - i,
        {
            if self.values[i].is_none() {
                return false;
            }
            i += 1;
        }
        true
    }

    pub fn get(&self, which: LayoutValue) -> (r: Option<i32>)
        requires
            self.wf(),
            which != LayoutValue::MaxValue,
        ensures
            r == slot(self@, which),
    {
        self.values[which.index()]
    }

    pub fn set(&mut self, which: LayoutValue, value: Option<i32>)
        requires
            old(self).wf(),
            which != LayoutValue::MaxValue,
        ensures
            final(self).wf(),
            final(self)@ == old(self)@.update(which.idx(), value),
    {
        self.values.set(which.index(), value);
    }

    pub fn put(&mut self, which: LayoutValue, value: i64)
        requires
            old(self).wf(),
            which != LayoutValue::MaxValue,
        ensures
            final(self).wf(),
            final(self)@ == put(old(self)@, which, value as int),
    {
        let v = clamp64(value);
        self.values.set(which.index(), Some(v));
    }

    pub fn value_or_zero(&self, which: LayoutValue) -> (r: i64)
        requires
            self.wf(),
            which != LayoutValue::MaxValue,
        ensures
            r == or_zero(slot(self@, which)),
            i32::MIN <= r <= i32::MAX,
    {
        or_zero64(self.values[which.index()])
    }

    /// Ends the current line of content flow.
    pub fn reverse_break_line(&mut self)
        requires
            old(self).wf(),
        ensures
            final(self).wf(),
            final(self)@ == break_line_spec(old(self)@),
    {
        let line_width = self.value_or_zero(LayoutValue::ContentLineWidth);
        let line_height = self.value_or_zero(LayoutValue::ContentLineHeight);
        let content_width = self.value_or_zero(LayoutValue::ContentWidth);
        let content_height = self.value_or_zero(LayoutValue::ContentHeight);
        let widest = if content_width >= line_width {
            content_width
        } else {
            line_width
        };
        self.put(LayoutValue::ContentWidth, widest);
        self.put(LayoutValue::ContentHeight, content_height + line_height);
        self.put(LayoutValue::ContentY, -(content_height + line_height));
        self.put(LayoutValue::ContentX, 0);
        self.put(LayoutValue::ContentLineWidth, 0);
        self.put(LayoutValue::ContentLineHeight, 0);
    }

    /// Adds an inline child to the content flow and returns its position.
    /// Children are added in document order.
    pub fn reverse_flow_inline(&mut self, child_width: i32, child_height: i32) -> (r: (i32, i32))
        requires
            old(self).wf(),
        ensures
            final(self).wf(),
            (final(self)@, r) == flow_inline_spec(old(self)@, child_width as int, child_height as int),
    {
        let line = self.value_or_zero(LayoutValue::ContentLineWidth);
        if let Some(width) = self.values[LayoutValue::Width.index()] {
            if line > 0 && line + child_width as i64 > width as i64 {
                self.reverse_break_line();
            }
        }
        let cx = self.value_or_zero(LayoutValue::ContentX);
        let cy = self.value_or_zero(LayoutValue::ContentY);
        let pos = (clamp64(-cx), clamp64(-cy));
        let lw = self.value_or_zero(LayoutValue::ContentLineWidth);
        let lh = self.value_or_zero(LayoutValue::ContentLineHeight);
        self.put(LayoutValue::ContentX, cx - child_width as i64);
        self.put(LayoutValue::ContentLineWidth, lw + child_width as i64);
        self.put(
            LayoutValue::ContentLineHeight,
            if lh >= child_height as i64 {
                lh
            } else {
                child_height as i64
            },
        );
        pos
    }

    /// Adds a block child to the content flow, on a line of its own, and
    /// returns its position. Children are added in document order.
    pub fn reverse_flow_block(&mut self, child_width: i32, child_height: i32) -> (r: (i32, i32))
        requires
            old(self).wf(),
        ensures
            final(self).wf(),
            (final(self)@, r) == flow_block_spec(old(self)@, child_width as int, child_height as int),
    {
        self.reverse_break_line();
        let cx = self.value_or_zero(LayoutValue::ContentX);
        let cy = self.value_or_zero(LayoutValue::ContentY);
        let pos = (clamp64(-cx), clamp64(-cy));
        self.put(LayoutValue::ContentLineWidth, child_width as i64);
        self.put(LayoutValue::ContentLineHeight, child_height as i64);
        self.reverse_break_line();
        pos
    }
}

} // verus!
