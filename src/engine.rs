use std::rc::Rc;
use vstd::prelude::*;
use crate::css::{
    clamp_i32, clamp_to_i32, number_parts, opt_view, parse_display, value_parts, lookup, lemma_lookup_skip, cascade_step, ComputedStyle, Display, Number, SelectedStyle, SelectorView, Specificity,
    Style, Unit,
};
use crate::document::{Document, NodeKind};
use crate::font::{text_flow, FontMetrics};
use crate::layout::{
    break_line_spec, flow_block_spec, flow_inline_spec, max_int, or_zero, put, slot, LayoutValue,
    NodeLayoutInfo, SLOT_COUNT,
};
use crate::text::{comma_pieces, lowercase_of, trim_of, split_commas, to_lower, trimmed, same_text};

verus! {

/// The first font among `names` (trimmed, and compared in lower case) that
/// `fonts` holds.
pub open spec fn find_font(names: Seq<Seq<char>>, fonts: Seq<(Seq<char>, FontMetrics)>) -> Option<FontMetrics>
    decreases names.len(),
{
    if names.len() == 0 {
        None
    } else {
        match lookup(fonts, lowercase_of(trim_of(names[0]))) {
            Some(m) => Some(m),
            None => find_font(names.drop_first(), fonts),
        }
    }
}

pub open spec fn min_int(a: int, b: int) -> int {
    if a <= b {
        a
    } else {
        b
    }
}

/// Whether a percentage in the slot is taken of the node's own width.
pub open spec fn percent_of_own_width(which: LayoutValue) -> bool {
    match which {
        LayoutValue::PaddingTop | LayoutValue::PaddingBottom | LayoutValue::PaddingLeft
        | LayoutValue::PaddingRight | LayoutValue::BorderTopWidth | LayoutValue::BorderBottomWidth
        | LayoutValue::BorderLeftWidth | LayoutValue::BorderRightWidth
        | LayoutValue::BorderTopLeftRadius | LayoutValue::BorderTopRightRadius
        | LayoutValue::BorderBottomLeftRadius | LayoutValue::BorderBottomRightRadius => true,
        _ => false,
    }
}

/// Sets the position slots of a record.
pub open spec fn place(v: Seq<Option<i32>>, pos: (i32, i32)) -> Seq<Option<i32>> {
    put(put(v, LayoutValue::X, pos.0 as int), LayoutValue::Y, pos.1 as int)
}

/// Fills an unset width or height from the content's size.
pub open spec fn content_based(v: Seq<Option<i32>>) -> Seq<Option<i32>> {
    let v1 = if slot(v, LayoutValue::Width) is None {
        v.update(LayoutValue::Width.idx(), Some(clamp_i32(or_zero(slot(v, LayoutValue::ContentWidth)))))
    } else {
        v
    };
    if slot(v1, LayoutValue::Height) is None {
        v1.update(LayoutValue::Height.idx(), Some(clamp_i32(or_zero(slot(v1, LayoutValue::ContentHeight)))))
    } else {
        v1
    }
}

/// What layout reads besides the fonts: the tree's shape and text, the
/// cascaded raw values of each node, and the viewport.
pub struct LayoutInput {
    pub parents: Seq<Option<usize>>,
    pub texts: Seq<Option<Seq<char>>>,
    pub styles: Seq<Option<Map<Seq<char>, Seq<char>>>>,
    pub vw: int,
    pub vh: int,
}

impl LayoutInput {
    pub open spec fn len(self) -> int {
        self.parents.len() as int
    }

    /// The cascaded raw value of property `p` on node `i`.
    pub open spec fn raw(self, i: int, p: Seq<char>) -> Option<Seq<char>> {
        match self.styles[i] {
            Some(m) => if m.contains_key(p) {
                Some(m[p])
            } else {
                None
            },
            None => None,
        }
    }

    pub open spec fn display(self, i: int) -> Option<Display> {
        match value_parts(self.raw(i, "display"@)).0 {
            Some(t) => parse_display(t),
            None => None,
        }
    }

    /// The font named by node `i`'s `font-family`.
    pub open spec fn font_for(self, i: int, fonts: Seq<(Seq<char>, FontMetrics)>) -> Option<FontMetrics> {
        match value_parts(self.raw(i, "font-family"@)).0 {
            Some(f) => find_font(comma_pieces(f), fonts),
            None => None,
        }
    }

    /// A value with a unit in pixels for slot `which` of node `i`, when it
    /// can be known top-down: absolute units by fixed ratios, viewport units
    /// by the viewport, `%` of the node's own width for padding, border
    /// widths and radii and of the parent's same slot otherwise (of the
    /// viewport for a root), `em` of the parent's font size for the font
    /// size and of the node's own otherwise.
    pub open spec fn resolve(
        self,
        ls: Seq<Seq<Option<i32>>>,
        which: LayoutValue,
        value: Option<Number>,
        unit: Option<Unit>,
        i: int,
    ) -> Option<i32> {
        let v = match value {
            Some(n) => n,
            None => Number { mantissa: 0, den: 1 },
        };
        match unit {
            Some(Unit::Px) => Some(v.scaled(1, 1)),
            Some(Unit::Vw) => Some(v.scaled(self.vw, 100)),
            Some(Unit::Vh) => Some(v.scaled(self.vh, 100)),
            Some(Unit::Vmin) => Some(v.scaled(min_int(self.vw, self.vh), 100)),
            Some(Unit::Vmax) => Some(v.scaled(max_int(self.vw, self.vh), 100)),
            Some(Unit::Cm) => Some(v.scaled(4800, 127)),
            Some(Unit::Mm) => Some(v.scaled(480, 127)),
            Some(Unit::Q) => Some(v.scaled(120, 127)),
            Some(Unit::In) => Some(v.scaled(96, 1)),
            Some(Unit::Pt) => Some(v.scaled(4, 3)),
            Some(Unit::Pc) => Some(v.scaled(16, 1)),
            Some(Unit::Percent) => if percent_of_own_width(which) {
                match slot(ls[i], LayoutValue::Width) {
                    Some(w) => Some(v.scaled(w as int, 100)),
                    None => None,
                }
            } else {
                match self.parents[i] {
                    Some(p) => match slot(ls[p as int], which) {
                        Some(b) => Some(v.scaled(b as int, 100)),
                        None => None,
                    },
                    None => if which == LayoutValue::Height {
                        Some(v.scaled(self.vh, 100))
                    } else {
                        Some(v.scaled(self.vw, 100))
                    },
                }
            },
            Some(Unit::Em) => if which == LayoutValue::FontSize {
                match self.parents[i] {
                    Some(p) => match slot(ls[p as int], LayoutValue::FontSize) {
                        Some(f) => Some(v.scaled(f as int, 1)),
                        None => None,
                    },
                    None => None,
                }
            } else {
                match slot(ls[i], LayoutValue::FontSize) {
                    Some(f) => Some(v.scaled(f as int, 1)),
                    None => None,
                }
            },
            _ => None,
        }
    }

    /// Fills slot `which` of node `i` from its style property, unless the
    /// slot is already set or the node has no computed style.
    #[verifier::opaque]
    pub open spec fn set_size(self, ls: Seq<Seq<Option<i32>>>, which: LayoutValue, i: int) -> Seq<Seq<Option<i32>>> {
        if slot(ls[i], which) is Some {
            ls
        } else if self.styles[i] is None {
            ls
        } else {
            let (value, unit) = number_parts(self.raw(i, which.property()));
            ls.update(i, ls[i].update(which.idx(), self.resolve(ls, which, value, unit, i)))
        }
    }

    pub open spec fn padding(self, ls: Seq<Seq<Option<i32>>>, i: int) -> Seq<Seq<Option<i32>>> {
        let l1 = self.set_size(ls, LayoutValue::PaddingTop, i);
        let l2 = self.set_size(l1, LayoutValue::PaddingRight, i);
        let l3 = self.set_size(l2, LayoutValue::PaddingBottom, i);
        self.set_size(l3, LayoutValue::PaddingLeft, i)
    }

    pub open spec fn border(self, ls: Seq<Seq<Option<i32>>>, i: int) -> Seq<Seq<Option<i32>>> {
        let l1 = self.set_size(ls, LayoutValue::BorderTopWidth, i);
        let l2 = self.set_size(l1, LayoutValue::BorderRightWidth, i);
        let l3 = self.set_size(l2, LayoutValue::BorderBottomWidth, i);
        let l4 = self.set_size(l3, LayoutValue::BorderLeftWidth, i);
        let l5 = self.set_size(l4, LayoutValue::BorderTopLeftRadius, i);
        let l6 = self.set_size(l5, LayoutValue::BorderTopRightRadius, i);
        let l7 = self.set_size(l6, LayoutValue::BorderBottomRightRadius, i);
        self.set_size(l7, LayoutValue::BorderBottomLeftRadius, i)
    }

    pub open spec fn margin(self, ls: Seq<Seq<Option<i32>>>, i: int) -> Seq<Seq<Option<i32>>> {
        let l1 = self.set_size(ls, LayoutValue::MarginTop, i);
        let l2 = self.set_size(l1, LayoutValue::MarginRight, i);
        let l3 = self.set_size(l2, LayoutValue::MarginBottom, i);
        self.set_size(l3, LayoutValue::MarginLeft, i)
    }

    pub open spec fn edges(self, ls: Seq<Seq<Option<i32>>>, i: int) -> Seq<Seq<Option<i32>>> {
        self.margin(self.border(self.padding(ls, i), i), i)
    }

    /// Width and height known top-down: zero for `display: none`, from the
    /// style for blocks and inline blocks.
    pub open spec fn top_down_box(self, ls: Seq<Seq<Option<i32>>>, i: int) -> Seq<Seq<Option<i32>>> {
        match self.display(i) {
            Some(Display::Hidden) => ls.update(
                i,
                ls[i].update(LayoutValue::Width.idx(), Some(0i32)).update(LayoutValue::Height.idx(), Some(0i32)),
            ),
            Some(Display::Block) | Some(Display::InlineBlock) => self.set_size(
                self.set_size(ls, LayoutValue::Width, i),
                LayoutValue::Height,
                i,
            ),
            _ => ls,
        }
    }

    /// The first pass on node `i`: font size, then width and height, then
    /// padding, border and margin, except that a node with `display: none`
    /// stops once its size is zero.
    pub open spec fn pass1_node(self, ls: Seq<Seq<Option<i32>>>, i: int) -> Seq<Seq<Option<i32>>> {
        let sized = self.top_down_box(self.set_size(ls, LayoutValue::FontSize, i), i);
        if self.display(i) == Some(Display::Hidden) {
            sized
        } else {
            self.edges(sized, i)
        }
    }

    /// A text node's trimmed text placed into its parent's content flow in
    /// the parent's font, one line as high as the parent's font size.
    pub open spec fn text_content(
        self,
        ls: Seq<Seq<Option<i32>>>,
        i: int,
        t: Seq<char>,
        fonts: Seq<(Seq<char>, FontMetrics)>,
    ) -> Seq<Seq<Option<i32>>> {
        let tt = trim_of(t);
        if tt.len() == 0 {
            ls
        } else {
            match self.parents[i] {
                None => ls,
                Some(p) => match self.font_for(p as int, fonts) {
                    None => ls,
                    Some(m) => ls.update(
                        p as int,
                        text_flow(
                            ls[p as int],
                            m.units_per_em as int,
                            m.advances@,
                            tt,
                            or_zero(slot(ls[p as int], LayoutValue::FontSize)),
                        ),
                    ),
                },
            }
        }
    }

    /// Child `j` of element `p` placed into `p`'s content flow: a text
    /// run glyph by glyph, an inline or inline-block element on the current
    /// line, a block element on a line of its own; the child's position in
    /// `p`'s content is recorded. Other displays take no place.
    pub open spec fn flow_child(self, ls: Seq<Seq<Option<i32>>>, p: int, j: int, fonts: Seq<(Seq<char>, FontMetrics)>) -> Seq<Seq<Option<i32>>> {
        match self.texts[j] {
            Some(t) => self.text_content(ls, j, t, fonts),
            None => {
                let me = ls[j];
                let w = or_zero(slot(me, LayoutValue::Width));
                let h = or_zero(slot(me, LayoutValue::Height));
                match self.display(j) {
                    Some(Display::Inline) | Some(Display::InlineBlock) => {
                        let (pv, pos) = flow_inline_spec(ls[p], w, h);
                        ls.update(p, pv).update(j, place(me, pos))
                    },
                    Some(Display::Block) => {
                        let (pv, pos) = flow_block_spec(ls[p], w, h);
                        ls.update(p, pv).update(j, place(me, pos))
                    },
                    _ => ls.update(j, place(me, (0i32, 0i32))),
                }
            },
        }
    }

    /// Node `i` placed into its parent's content flow, which records its
    /// position in the parent's content; a root sits at the origin.
    pub open spec fn place_self(self, ls: Seq<Seq<Option<i32>>>, i: int, fonts: Seq<(Seq<char>, FontMetrics)>) -> Seq<Seq<Option<i32>>> {
        match self.parents[i] {
            Some(p) => self.flow_child(ls, p as int, i, fonts),
            None => match self.texts[i] {
                Some(_) => ls,
                None => ls.update(i, place(ls[i], (0i32, 0i32))),
            },
        }
    }

    /// The second pass on node `i`, once its children are done: an element
    /// ends the last line of its content, takes its content's size where its
    /// own is unset, fills its edges, and places itself into its parent's
    /// flow; a text run places itself glyph by glyph.
    pub open spec fn pass2_node(self, ls: Seq<Seq<Option<i32>>>, i: int, fonts: Seq<(Seq<char>, FontMetrics)>) -> Seq<Seq<Option<i32>>> {
        match self.texts[i] {
            Some(_) => self.place_self(ls, i, fonts),
            None => {
                let l1 = ls.update(i, content_based(break_line_spec(ls[i])));
                self.place_self(self.edges(l1, i), i, fonts)
            },
        }
    }

    /// The second pass on the subtree of node `i`, in post-order: the
    /// children's subtrees in document order, then the node itself.
    pub open spec fn subtree_pass(self, ls: Seq<Seq<Option<i32>>>, i: int, fonts: Seq<(Seq<char>, FontMetrics)>) -> Seq<Seq<Option<i32>>>
        decreases self.len() - i, self.len() - i + 1,
    {
        if i < 0 || i >= self.len() {
            ls
        } else {
            self.pass2_node(self.children_pass(ls, i, i + 1, fonts), i, fonts)
        }
    }

    /// The second pass on the subtrees of the children of `p` among nodes
    /// `j..`, in document order.
    pub open spec fn children_pass(self, ls: Seq<Seq<Option<i32>>>, p: int, j: int, fonts: Seq<(Seq<char>, FontMetrics)>) -> Seq<Seq<Option<i32>>>
        decreases self.len() - p, self.len() - j,
    {
        if j <= p || p < 0 || j >= self.len() {
            ls
        } else {
            let l1 = if self.parents[j] == Some(p as usize) {
                self.subtree_pass(ls, j, fonts)
            } else {
                ls
            };
            self.children_pass(l1, p, j + 1, fonts)
        }
    }

    /// The third pass on node `i`: the parent's absolute position is added
    /// to the node's position in its parent's content; the masked rectangle
    /// is the node's box clipped to the parent's masked rectangle (to the
    /// viewport for a root).
    pub open spec fn pass3_node(self, ls: Seq<Seq<Option<i32>>>, i: int) -> Seq<Seq<Option<i32>>> {
        let me = ls[i];
        let w = or_zero(slot(me, LayoutValue::Width));
        let h = or_zero(slot(me, LayoutValue::Height));
        let xr = or_zero(slot(me, LayoutValue::X));
        let yr = or_zero(slot(me, LayoutValue::Y));
        let (x, y, cx, cy, cw, ch) = match self.parents[i] {
            Some(p) => {
                let par = ls[p as int];
                (
                    or_zero(slot(par, LayoutValue::X)) + xr,
                    or_zero(slot(par, LayoutValue::Y)) + yr,
                    or_zero(slot(par, LayoutValue::MaskedX)),
                    or_zero(slot(par, LayoutValue::MaskedY)),
                    or_zero(slot(par, LayoutValue::MaskedWidth)),
                    or_zero(slot(par, LayoutValue::MaskedHeight)),
                )
            },
            None => (xr, yr, 0, 0, self.vw, self.vh),
        };
        let xa = clamp_i32(x) as int;
        let ya = clamp_i32(y) as int;
        let mx = max_int(xa, cx);
        let my = max_int(ya, cy);
        let mw = max_int(0, min_int(xa + w, cx + cw) - mx);
        let mh = max_int(0, min_int(ya + h, cy + ch) - my);
        ls.update(
            i,
            put(
                put(
                    put(put(put(put(me, LayoutValue::X, xa), LayoutValue::Y, ya), LayoutValue::MaskedX, mx), LayoutValue::MaskedY, my),
                    LayoutValue::MaskedWidth,
                    mw,
                ),
                LayoutValue::MaskedHeight,
                mh,
            ),
        )
    }

    /// The first pass on nodes `0..k`, in document order.
    pub open spec fn pass1(self, ls: Seq<Seq<Option<i32>>>, k: int) -> Seq<Seq<Option<i32>>>
        decreases k,
    {
        if k <= 0 {
            ls
        } else {
            self.pass1_node(self.pass1(ls, k - 1), k - 1)
        }
    }

    /// The second pass on the trees whose roots are among nodes `0..k`, in
    /// document order.
    pub open spec fn pass2(self, ls: Seq<Seq<Option<i32>>>, k: int, fonts: Seq<(Seq<char>, FontMetrics)>) -> Seq<Seq<Option<i32>>>
        decreases k,
    {
        if k <= 0 {
            ls
        } else {
            let prev = self.pass2(ls, k - 1, fonts);
            if self.parents[k - 1] is None {
                self.subtree_pass(prev, k - 1, fonts)
            } else {
                prev
            }
        }
    }

    /// The third pass on nodes `0..k`, in document order.
    pub open spec fn pass3(self, ls: Seq<Seq<Option<i32>>>, k: int) -> Seq<Seq<Option<i32>>>
        decreases k,
    {
        if k <= 0 {
            ls
        } else {
            self.pass3_node(self.pass3(ls, k - 1), k - 1)
        }
    }

    /// One empty record per node.
    pub open spec fn initial(self) -> Seq<Seq<Option<i32>>> {
        Seq::new(self.len() as nat, |i: int| Seq::new(SLOT_COUNT as nat, |j: int| None::<i32>))
    }

    /// The records of a full layout: the three passes from empty records.
    pub open spec fn layout(self, fonts: Seq<(Seq<char>, FontMetrics)>) -> Seq<Seq<Option<i32>>> {
        self.pass3(self.pass2(self.pass1(self.initial(), self.len()), self.len(), fonts), self.len())
    }
}

/// The raw values a computed style gives, as a map from property name.
pub open spec fn raw_map(cs: ComputedStyle) -> Map<Seq<char>, Seq<char>> {
    Map::new(|p: Seq<char>| cs.raw(p) is Some, |p: Seq<char>| cs.raw(p)->Some_0)
}

pub open spec fn fonts_view(fonts: Seq<(String, FontMetrics)>) -> Seq<(Seq<char>, FontMetrics)> {
    fonts.map_values(|f: (String, FontMetrics)| (f.0@, f.1))
}

/// A document with its viewport, the style computed for each node, and the
/// layout record of each node.
#[derive(Debug)]
pub struct Page {
    pub document: Document,
    pub viewport_width: u32,
    pub viewport_height: u32,
    pub styles: Vec<Option<ComputedStyle>>,
    pub layouts: Vec<NodeLayoutInfo>,
}

impl Page {
    pub open spec fn wf(&self) -> bool {
        &&& self.document.wf()
        &&& self.styles@.len() == self.document.nodes@.len()
        &&& self.layouts@.len() == self.document.nodes@.len()
        &&& forall|j: int| 0 <= j < self.layouts@.len() ==> (#[trigger] self.layouts@[j]).wf()
    }

    pub open spec fn style_model(&self) -> Seq<Option<Map<Seq<char>, Seq<char>>>> {
        self.styles@.map_values(
            |o: Option<ComputedStyle>|
                match o {
                    Some(cs) => Some(raw_map(cs)),
                    None => None,
                },
        )
    }

    pub open spec fn input(&self) -> LayoutInput {
        LayoutInput {
            parents: self.document.parents(),
            texts: self.document.texts(),
            styles: self.style_model(),
            vw: self.viewport_width as int,
            vh: self.viewport_height as int,
        }
    }

    /// Everything but the layout records is unchanged.
    pub open spec fn same_input(&self, o: &Page) -> bool {
        &&& self.document == o.document
        &&& self.styles == o.styles
        &&& self.viewport_width == o.viewport_width
        &&& self.viewport_height == o.viewport_height
    }

    pub open spec fn layout_view(&self) -> Seq<Seq<Option<i32>>> {
        self.layouts@.map_values(|l: NodeLayoutInfo| l@)
    }

    /// A page over `document` with no styles and empty layout records.
    pub fn new(document: Document, viewport_width: u32, viewport_height: u32) -> (r: Page)
        requires
            document.wf(),
        ensures
            r.wf(),
            r.document == document,
            r.viewport_width == viewport_width,
            r.viewport_height == viewport_height,
            forall|i: int| 0 <= i < r.styles@.len() ==> r.styles@[i] is None,
            r.layout_view() == r.input().initial(),
    {
        let n = document.len();
        let mut styles: Vec<Option<ComputedStyle>> = Vec::new();
        let mut layouts: Vec<NodeLayoutInfo> = Vec::new();
        let mut i: usize = 0;
        while i < n
            invariant
                i <= n,
                styles@.len() == i,
                layouts@.len() == i,
                forall|j: int| 0 <= j < i ==> styles@[j] is None,
                forall|j: int| 0 <= j < i ==> (#[trigger] layouts@[j]).wf() && forall|k: int| 0 <= k < SLOT_COUNT ==> layouts@[j]@[k] is None,
            decreases n - i,
        {
            styles.push(None);
            layouts.push(NodeLayoutInfo::new());
            i += 1;
        }
        let r = Page { document, viewport_width, viewport_height, styles, layouts };
        assert(r.layout_view() =~= r.input().initial()) by {
            assert forall|j: int| 0 <= j < n implies r.layout_view()[j] =~= #[trigger] r.input().initial()[j] by {
                assert(r.layouts@[j].wf());
            }
        }
        r
    }

    fn parent_of(&self, i: usize) -> (r: Option<usize>)
        requires
            self.wf(),
            i < self.document.nodes@.len(),
        ensures
            r == self.input().parents[i as int],
            r matches Some(p) ==> p < i,
    {
        self.document.nodes[i].parent
    }

    proof fn raw_is(&self, i: int, p: Seq<char>)
        requires
            self.wf(),
            0 <= i < self.document.nodes@.len(),
            self.styles@[i] is Some,
        ensures
            self.input().raw(i, p) == self.styles@[i]->Some_0.raw(p),
    {
    }

    /// The display of node `i`, if its style names one.
    pub fn display(&self, i: usize) -> (r: Option<Display>)
        requires
            self.wf(),
            i < self.document.nodes@.len(),
        ensures
            r == self.input().display(i as int),
    {
        match &self.styles[i] {
            Some(cs) => {
                proof {
                    self.raw_is(i as int, "display"@);
                }
                match cs.get_value("display").0 {
                    Some(t) => Display::parse(t.as_str()),
                    None => None,
                }
            },
            None => None,
        }
    }

    /// The pixel value of a value with a unit for slot `which` of node `i`,
    /// when it is fixed or depends on the parent or the viewport; `None`
    /// when it depends on the content.
    pub fn calc_size_top_down(&self, which: LayoutValue, value: Option<Number>, unit: Option<Unit>, i: usize) -> (r: Option<i32>)
        requires
            self.wf(),
            i < self.document.nodes@.len(),
            which != LayoutValue::MaxValue,
            value matches Some(n) ==> n.wf(),
        ensures
            r == self.input().resolve(self.layout_view(), which, value, unit, i as int),
    {
        let v = match value {
            Some(n) => n,
            None => Number { mantissa: 0, den: 1 },
        };
        let vw = self.viewport_width as i64;
        let vh = self.viewport_height as i64;
        match unit {
            Some(Unit::Px) => Some(v.scale(1, 1)),
            Some(Unit::Vw) => Some(v.scale(vw, 100)),
            Some(Unit::Vh) => Some(v.scale(vh, 100)),
            Some(Unit::Vmin) => Some(v.scale(if vw <= vh { vw } else { vh }, 100)),
            Some(Unit::Vmax) => Some(v.scale(if vw >= vh { vw } else { vh }, 100)),
            Some(Unit::Cm) => Some(v.scale(4800, 127)),
            Some(Unit::Mm) => Some(v.scale(480, 127)),
            Some(Unit::Q) => Some(v.scale(120, 127)),
            Some(Unit::In) => Some(v.scale(96, 1)),
            Some(Unit::Pt) => Some(v.scale(4, 3)),
            Some(Unit::Pc) => Some(v.scale(16, 1)),
            Some(Unit::Percent) => {
                let own = match which {
                    LayoutValue::PaddingTop | LayoutValue::PaddingBottom | LayoutValue::PaddingLeft
                    | LayoutValue::PaddingRight | LayoutValue::BorderTopWidth
                    | LayoutValue::BorderBottomWidth | LayoutValue::BorderLeftWidth
                    | LayoutValue::BorderRightWidth | LayoutValue::BorderTopLeftRadius
                    | LayoutValue::BorderTopRightRadius | LayoutValue::BorderBottomLeftRadius
                    | LayoutValue::BorderBottomRightRadius => true,
                    _ => false,
                };
                if own {
                    match self.layouts[i].get(LayoutValue::Width) {
                        Some(w) => Some(v.scale(w as i64, 100)),
                        None => None,
                    }
                } else {
                    match self.parent_of(i) {
                        Some(p) => match self.layouts[p].get(which) {
                            Some(b) => Some(v.scale(b as i64, 100)),
                            None => None,
                        },
                        None => if which == LayoutValue::Height {
                            Some(v.scale(vh, 100))
                        } else {
                            Some(v.scale(vw, 100))
                        },
                    }
                }
            },
            Some(Unit::Em) => {
                if which == LayoutValue::FontSize {
                    match self.parent_of(i) {
                        Some(p) => match self.layouts[p].get(LayoutValue::FontSize) {
                            Some(f) => Some(v.scale(f as i64, 1)),
                            None => None,
                        },
                        None => None,
                    }
                } else {
                    match self.layouts[i].get(LayoutValue::FontSize) {
                        Some(f) => Some(v.scale(f as i64, 1)),
                        None => None,
                    }
                }
            },
            _ => None,
        }
    }

    /// Fills slot `which` of node `i` from its style, unless it is set.
    pub fn set_size_value_top_down(&mut self, which: LayoutValue, i: usize)
        requires
            old(self).wf(),
            i < old(self).document.nodes@.len(),
            which.has_property(),
        ensures
            final(self).wf(),
            final(self).same_input(old(self)),
            final(self).layout_view() == old(self).input().set_size(old(self).layout_view(), which, i as int),
    {
        proof {
            reveal(LayoutInput::set_size);
        }
        if self.layouts[i].is_set(which) {
            return;
        }
        let (value, unit) = match &self.styles[i] {
            Some(cs) => {
                proof {
                    self.raw_is(i as int, which.property());
                }
                cs.get_number(which.to_string().as_str())
            },
            None => {
                return;
            },
        };
        let v = self.calc_size_top_down(which, value, unit, i);
        let ghost before = self.layout_view();
        self.layouts[i].set(which, v);
        proof {
            assert(self.layout_view() =~= before.update(i as int, before[i as int].update(which.idx(), v)));
        }
    }

    /// Fills the node's padding slots.
    fn layout_element_padding(&mut self, i: usize)
        requires
            old(self).wf(),
            i < old(self).document.nodes@.len(),
        ensures
            final(self).wf(),
            final(self).same_input(old(self)),
            final(self).layout_view() == old(self).input().padding(old(self).layout_view(), i as int),
    {
        self.set_size_value_top_down(LayoutValue::PaddingTop, i);
        self.set_size_value_top_down(LayoutValue::PaddingRight, i);
        self.set_size_value_top_down(LayoutValue::PaddingBottom, i);
        self.set_size_value_top_down(LayoutValue::PaddingLeft, i);
    }

    /// Fills the node's border width and radius slots.
    fn layout_element_border(&mut self, i: usize)
        requires
            old(self).wf(),
            i < old(self).document.nodes@.len(),
        ensures
            final(self).wf(),
            final(self).same_input(old(self)),
            final(self).layout_view() == old(self).input().border(old(self).layout_view(), i as int),
    {
        self.set_size_value_top_down(LayoutValue::BorderTopWidth, i);
        self.set_size_value_top_down(LayoutValue::BorderRightWidth, i);
        self.set_size_value_top_down(LayoutValue::BorderBottomWidth, i);
        self.set_size_value_top_down(LayoutValue::BorderLeftWidth, i);
        self.set_size_value_top_down(LayoutValue::BorderTopLeftRadius, i);
        self.set_size_value_top_down(LayoutValue::BorderTopRightRadius, i);
        self.set_size_value_top_down(LayoutValue::BorderBottomRightRadius, i);
        self.set_size_value_top_down(LayoutValue::BorderBottomLeftRadius, i);
    }

    /// Fills the node's margin slots.
    fn layout_element_margin(&mut self, i: usize)
        requires
            old(self).wf(),
            i < old(self).document.nodes@.len(),
        ensures
            final(self).wf(),
            final(self).same_input(old(self)),
            final(self).layout_view() == old(self).input().margin(old(self).layout_view(), i as int),
    {
        self.set_size_value_top_down(LayoutValue::MarginTop, i);
        self.set_size_value_top_down(LayoutValue::MarginRight, i);
        self.set_size_value_top_down(LayoutValue::MarginBottom, i);
        self.set_size_value_top_down(LayoutValue::MarginLeft, i);
    }

    fn layout_element_edges(&mut self, i: usize)
        requires
            old(self).wf(),
            i < old(self).document.nodes@.len(),
        ensures
            final(self).wf(),
            final(self).same_input(old(self)),
            final(self).layout_view() == old(self).input().edges(old(self).layout_view(), i as int),
    {
        self.layout_element_padding(i);
        self.layout_element_border(i);
        self.layout_element_margin(i);
    }

    /// Width and height when they are fixed or depend on the parent.
    fn layout_element_top_down_width_and_height(&mut self, i: usize)
        requires
            old(self).wf(),
            i < old(self).document.nodes@.len(),
        ensures
            final(self).wf(),
            final(self).same_input(old(self)),
            final(self).layout_view() == old(self).input().top_down_box(old(self).layout_view(), i as int),
            old(self).input().display(i as int) == Some(Display::Hidden) ==> slot(final(self).layout_view()[i as int], LayoutValue::Width)
                == Some(0i32) && slot(final(self).layout_view()[i as int], LayoutValue::Height) == Some(0i32),
            forall|j: int| 0 <= j < final(self).layouts@.len() && j != i ==> #[trigger] final(self).layout_view()[j] == old(self).layout_view()[j],
    {
        proof {
            let ls = old(self).layout_view();
            assert(ls[i as int].len() == SLOT_COUNT);
            lemma_set_size_keeps(old(self).input(), ls, LayoutValue::Width, i as int);
            lemma_set_size_keeps(old(self).input(), old(self).input().set_size(ls, LayoutValue::Width, i as int), LayoutValue::Height, i as int);
        }
        match self.display(i) {
            Some(Display::Hidden) => {
                let ghost before = self.layout_view();
                self.layouts[i].set(LayoutValue::Width, Some(0));
                self.layouts[i].set(LayoutValue::Height, Some(0));
                proof {
                    assert(self.layout_view() =~= before.update(
                        i as int,
                        before[i as int].update(LayoutValue::Width.idx(), Some(0i32)).update(LayoutValue::Height.idx(), Some(0i32)),
                    ));
                }
            },
            Some(Display::Block) | Some(Display::InlineBlock) => {
                self.set_size_value_top_down(LayoutValue::Width, i);
                self.set_size_value_top_down(LayoutValue::Height, i);
            },
            _ => {},
        }
    }

    /// The first pass on node `i`.
    fn layout_top_down(&mut self, i: usize)
        requires
            old(self).wf(),
            i < old(self).document.nodes@.len(),
        ensures
            final(self).wf(),
            final(self).same_input(old(self)),
            final(self).layout_view() == old(self).input().pass1_node(old(self).layout_view(), i as int),
    {
        self.set_size_value_top_down(LayoutValue::FontSize, i);
        self.layout_element_top_down_width_and_height(i);
        if self.display(i) != Some(Display::Hidden) {
            self.layout_element_edges(i);
        }
    }

    /// The first font among the names of node `i`'s `font-family` that
    /// `fonts` holds.
    fn font_for<'f>(&self, i: usize, fonts: &'f Vec<(String, FontMetrics)>) -> (r: Option<&'f FontMetrics>)
        requires
            self.wf(),
            i < self.document.nodes@.len(),
        ensures
            match r {
                Some(m) => self.input().font_for(i as int, fonts_view(fonts@)) == Some(*m),
                None => self.input().font_for(i as int, fonts_view(fonts@)) is None,
            },
    {
        let family = match &self.styles[i] {
            Some(cs) => {
                proof {
                    self.raw_is(i as int, "font-family"@);
                }
                cs.get_value("font-family").0
            },
            None => None,
        };
        let ghost fam = opt_view(family);
        assert(fam == value_parts(self.input().raw(i as int, "font-family"@)).0);
        let family = match family {
            Some(f) => f,
            None => {
                return None;
            },
        };
        assert(self.input().font_for(i as int, fonts_view(fonts@)) == find_font(comma_pieces(family@), fonts_view(fonts@)));
        let names = split_commas(family.as_str());
        let ghost pieces = names@.map_values(|p: String| p@);
        let ghost fv = fonts_view(fonts@);
        assert(pieces == comma_pieces(family@));
        let mut k: usize = 0;
        assert(pieces.subrange(0, pieces.len() as int) =~= pieces);
        while k < names.len()
            invariant
                pieces == names@.map_values(|p: String| p@),
                fv == fonts_view(fonts@),
                k <= names.len(),
                find_font(pieces, fv) == find_font(pieces.subrange(k as int, pieces.len() as int), fv),
                self.input().font_for(i as int, fv) == find_font(pieces, fv),
            decreases names.len() - k,
        {
            let bare = trimmed(names[k].as_str());
            let lower = to_lower(bare.as_str());
            let ghost rest = pieces.subrange(k as int, pieces.len() as int);
            assert(rest[0] == pieces[k as int]);
            assert(rest.drop_first() =~= pieces.subrange(k + 1, pieces.len() as int));
            assert(fv =~= fonts@.map_values(|p: (String, FontMetrics)| (p.0@, p.1)));
            match key_position(fonts, lower.as_str()) {
                Some(j) => {
                    assert(find_font(rest, fv) == Some(fonts@[j as int].1));
                    assert(find_font(pieces, fv) == Some(fonts@[j as int].1));
                    let m = &fonts[j].1;
                    assert(*m == fonts@[j as int].1);
                    return Some(m);
                },
                None => {},
            }
            k += 1;
        }
        assert(pieces.subrange(k as int, pieces.len() as int) =~= Seq::<Seq<char>>::empty());
        None
    }

    /// Places a text node's trimmed text into its parent's content flow.
    fn layout_text_content(&mut self, i: usize, fonts: &Vec<(String, FontMetrics)>)
        requires
            old(self).wf(),
            i < old(self).document.nodes@.len(),
            old(self).input().texts[i as int] is Some,
            forall|j: int| 0 <= j < fonts@.len() ==> (#[trigger] fonts@[j]).1.wf(),
        ensures
            final(self).wf(),
            final(self).same_input(old(self)),
            final(self).layout_view() == old(self).input().text_content(
                old(self).layout_view(),
                i as int,
                old(self).input().texts[i as int]->Some_0,
                fonts_view(fonts@),
            ),
    {
        let tt = match &self.document.nodes[i].kind {
            NodeKind::Text(t) => trimmed(t.as_str()),
            NodeKind::Element(_) => {
                return;
            },
        };
        if tt.unicode_len() == 0 {
            return;
        }
        let p = match self.parent_of(i) {
            Some(p) => p,
            None => {
                return;
            },
        };
        let font = match self.font_for(p, fonts) {
            Some(m) => m,
            None => {
                return;
            },
        };
        proof {
            let fv = fonts_view(fonts@);
            lemma_found_font_wf(comma_pieces(value_parts(self.input().raw(p as int, "font-family"@)).0->Some_0), fonts@);
        }
        let font_size = match self.layouts[p].get(LayoutValue::FontSize) {
            Some(f) => f,
            None => 0,
        };
        let ghost before = self.layout_view();
        font.text_layout(tt.as_str(), font_size, &mut self.layouts[p]);
        proof {
            assert(self.layout_view() =~= before.update(p as int, self.layouts@[p as int]@));
        }
    }

    /// Fills an unset width or height from the content's size.
    fn layout_content_based_width_and_height(&mut self, i: usize)
        requires
            old(self).wf(),
            i < old(self).document.nodes@.len(),
        ensures
            final(self).wf(),
            final(self).same_input(old(self)),
            final(self).layout_view() == old(self).layout_view().update(i as int, content_based(old(self).layout_view()[i as int])),
    {
        let ghost before = self.layout_view();
        if self.layouts[i].get(LayoutValue::Width).is_none() {
            let cw = self.layouts[i].value_or_zero(LayoutValue::ContentWidth);
            self.layouts[i].set(LayoutValue::Width, Some(cw as i32));
        }
        if self.layouts[i].get(LayoutValue::Height).is_none() {
            let ch = self.layouts[i].value_or_zero(LayoutValue::ContentHeight);
            self.layouts[i].set(LayoutValue::Height, Some(ch as i32));
        }
        proof {
            assert(self.layout_view() =~= before.update(i as int, content_based(before[i as int])));
        }
    }

    /// Places child `j` of element `p` into `p`'s content flow.
    fn layout_flow_child(&mut self, p: usize, j: usize, fonts: &Vec<(String, FontMetrics)>)
        requires
            old(self).wf(),
            p < j < old(self).document.nodes@.len(),
            old(self).input().parents[j as int] == Some(p),
            forall|k: int| 0 <= k < fonts@.len() ==> (#[trigger] fonts@[k]).1.wf(),
        ensures
            final(self).wf(),
            final(self).same_input(old(self)),
            final(self).layout_view() == old(self).input().flow_child(old(self).layout_view(), p as int, j as int, fonts_view(fonts@)),
    {
        let is_text = match &self.document.nodes[j].kind {
            NodeKind::Text(_) => true,
            NodeKind::Element(_) => false,
        };
        if is_text {
            self.layout_text_content(j, fonts);
            return;
        }
        let ghost l0 = self.layout_view();
        let ghost me = l0[j as int];
        let display = self.display(j);
        let w = self.layouts[j].value_or_zero(LayoutValue::Width) as i32;
        let h = self.layouts[j].value_or_zero(LayoutValue::Height) as i32;
        let pos: (i32, i32) = match display {
            Some(Display::Inline) | Some(Display::InlineBlock) => {
                let r = self.layouts[p].reverse_flow_inline(w, h);
                proof {
                    assert(self.layout_view() =~= l0.update(p as int, flow_inline_spec(l0[p as int], w as int, h as int).0));
                }
                r
            },
            Some(Display::Block) => {
                let r = self.layouts[p].reverse_flow_block(w, h);
                proof {
                    assert(self.layout_view() =~= l0.update(p as int, flow_block_spec(l0[p as int], w as int, h as int).0));
                }
                r
            },
            _ => (0, 0),
        };
        let ghost l3 = self.layout_view();
        assert(l3[j as int] == me);
        assert(clamp_i32(pos.0 as int) == pos.0);
        assert(clamp_i32(pos.1 as int) == pos.1);
        self.layouts[j].set(LayoutValue::X, Some(pos.0));
        self.layouts[j].set(LayoutValue::Y, Some(pos.1));
        proof {
            assert(self.layouts@[j as int]@ =~= place(me, pos));
            assert(self.layout_view() =~= l3.update(j as int, place(me, pos)));
        }
    }

    /// Places node `i` into its parent's content flow.
    fn layout_place_self(&mut self, i: usize, fonts: &Vec<(String, FontMetrics)>)
        requires
            old(self).wf(),
            i < old(self).document.nodes@.len(),
            forall|k: int| 0 <= k < fonts@.len() ==> (#[trigger] fonts@[k]).1.wf(),
        ensures
            final(self).wf(),
            final(self).same_input(old(self)),
            final(self).layout_view() == old(self).input().place_self(old(self).layout_view(), i as int, fonts_view(fonts@)),
    {
        match self.parent_of(i) {
            Some(p) => {
                self.layout_flow_child(p, i, fonts);
            },
            None => {
                let is_text = match &self.document.nodes[i].kind {
                    NodeKind::Text(_) => true,
                    NodeKind::Element(_) => false,
                };
                if !is_text {
                    let ghost l0 = self.layout_view();
                    self.layouts[i].set(LayoutValue::X, Some(0));
                    self.layouts[i].set(LayoutValue::Y, Some(0));
                    proof {
                        assert(self.layouts@[i as int]@ =~= place(l0[i as int], (0i32, 0i32)));
                        assert(self.layout_view() =~= l0.update(i as int, place(l0[i as int], (0i32, 0i32))));
                    }
                }
            },
        }
    }

    /// The second pass on node `i`, once its children are done.
    fn layout_bottom_up(&mut self, i: usize, fonts: &Vec<(String, FontMetrics)>)
        requires
            old(self).wf(),
            i < old(self).document.nodes@.len(),
            forall|j: int| 0 <= j < fonts@.len() ==> (#[trigger] fonts@[j]).1.wf(),
        ensures
            final(self).wf(),
            final(self).same_input(old(self)),
            final(self).layout_view() == old(self).input().pass2_node(old(self).layout_view(), i as int, fonts_view(fonts@)),
            old(self).input().texts[i as int] is None ==> {
                let me = final(self).layout_view()[i as int];
                &&& slot(me, LayoutValue::X) is Some
                &&& slot(me, LayoutValue::Y) is Some
                &&& slot(me, LayoutValue::Width) is Some
                &&& slot(me, LayoutValue::Height) is Some
                &&& slot(me, LayoutValue::ContentWidth) is Some
                &&& slot(me, LayoutValue::ContentHeight) is Some
            },
    {
        let is_text = match &self.document.nodes[i].kind {
            NodeKind::Text(_) => true,
            NodeKind::Element(_) => false,
        };
        if !is_text {
            let ghost l0 = self.layout_view();
            self.layouts[i].reverse_break_line();
            proof {
                assert(self.layout_view() =~= l0.update(i as int, break_line_spec(l0[i as int])));
            }
            self.layout_content_based_width_and_height(i);
            let ghost l1 = l0.update(i as int, content_based(break_line_spec(l0[i as int])));
            proof {
                assert(self.layout_view() =~= l1);
                assert(l1[i as int].len() == SLOT_COUNT);
                lemma_edges_keep(self.input(), l1, i as int);
            }
            self.layout_element_edges(i);
            let ghost l2 = self.layout_view();
            proof {
                assert(slot(l2[i as int], LayoutValue::Width) is Some);
                assert(slot(l2[i as int], LayoutValue::Height) is Some);
                assert(slot(l2[i as int], LayoutValue::ContentWidth) is Some);
                assert(slot(l2[i as int], LayoutValue::ContentHeight) is Some);
            }
        }
        self.layout_place_self(i, fonts);
    }

    /// The second pass on the subtree of node `i`, in post-order.
    fn layout_subtree(&mut self, i: usize, n: usize, fonts: &Vec<(String, FontMetrics)>)
        requires
            old(self).wf(),
            n == old(self).document.nodes@.len(),
            i < n,
            forall|j: int| 0 <= j < fonts@.len() ==> (#[trigger] fonts@[j]).1.wf(),
        ensures
            final(self).wf(),
            final(self).same_input(old(self)),
            final(self).layout_view() == old(self).input().subtree_pass(old(self).layout_view(), i as int, fonts_view(fonts@)),
        decreases n - i,
    {
        let ghost inp = self.input();
        let ghost fv = fonts_view(fonts@);
        let ghost l0 = self.layout_view();
        let mut j: usize = i + 1;
        while j < n
            invariant
                self.wf(),
                self.same_input(old(self)),
                inp == old(self).input(),
                inp.len() == n,
                fv == fonts_view(fonts@),
                n == self.document.nodes@.len(),
                i < n,
                i + 1 <= j <= n,
                forall|k: int| 0 <= k < fonts@.len() ==> (#[trigger] fonts@[k]).1.wf(),
                inp.children_pass(self.layout_view(), i as int, j as int, fv) == inp.children_pass(l0, i as int, i + 1, fv),
            decreases n - j,
        {
            let ghost cur = self.layout_view();
            if self.parent_of(j) == Some(i) {
                self.layout_subtree(j, n, fonts);
            }
            assert(inp.children_pass(cur, i as int, j as int, fv) == inp.children_pass(self.layout_view(), i as int, j + 1, fv));
            j += 1;
        }
        assert(inp.children_pass(self.layout_view(), i as int, n as int, fv) == self.layout_view());
        self.layout_bottom_up(i, fonts);
    }

    /// The third pass on node `i`: absolute position and masked rectangle.
    fn layout_mask_top_down(&mut self, i: usize)
        requires
            old(self).wf(),
            i < old(self).document.nodes@.len(),
        ensures
            final(self).wf(),
            final(self).same_input(old(self)),
            final(self).layout_view() == old(self).input().pass3_node(old(self).layout_view(), i as int),
    {
        let w = self.layouts[i].value_or_zero(LayoutValue::Width);
        let h = self.layouts[i].value_or_zero(LayoutValue::Height);
        let xr = self.layouts[i].value_or_zero(LayoutValue::X);
        let yr = self.layouts[i].value_or_zero(LayoutValue::Y);
        let (x, y, cx, cy, cw, ch): (i64, i64, i64, i64, i64, i64) = match self.parent_of(i) {
            Some(p) => {
                (
                    self.layouts[p].value_or_zero(LayoutValue::X) + xr,
                    self.layouts[p].value_or_zero(LayoutValue::Y) + yr,
                    self.layouts[p].value_or_zero(LayoutValue::MaskedX),
                    self.layouts[p].value_or_zero(LayoutValue::MaskedY),
                    self.layouts[p].value_or_zero(LayoutValue::MaskedWidth),
                    self.layouts[p].value_or_zero(LayoutValue::MaskedHeight),
                )
            },
            None => (xr, yr, 0, 0, self.viewport_width as i64, self.viewport_height as i64),
        };
        let xa = clamp_to_i32(x as i128) as i64;
        let ya = clamp_to_i32(y as i128) as i64;
        let mx = if xa >= cx { xa } else { cx };
        let my = if ya >= cy { ya } else { cy };
        let right = if xa + w <= cx + cw { xa + w } else { cx + cw };
        let bottom = if ya + h <= cy + ch { ya + h } else { cy + ch };
        let mw = if right - mx >= 0 { right - mx } else { 0 };
        let mh = if bottom - my >= 0 { bottom - my } else { 0 };
        let ghost before = self.layout_view();
        self.layouts[i].put(LayoutValue::X, xa);
        self.layouts[i].put(LayoutValue::Y, ya);
        self.layouts[i].put(LayoutValue::MaskedX, mx);
        self.layouts[i].put(LayoutValue::MaskedY, my);
        self.layouts[i].put(LayoutValue::MaskedWidth, mw);
        self.layouts[i].put(LayoutValue::MaskedHeight, mh);
        proof {
            assert(self.layout_view() =~= self.input().pass3_node(before, i as int));
        }
    }

    /// Lays out every node from scratch: the first pass in document order,
    /// the second bottom-up (each node after its children, siblings in
    /// document order), the third in document order.
    pub fn compute_layout(&mut self, fonts: &Vec<(String, FontMetrics)>)
        requires
            old(self).wf(),
            forall|j: int| 0 <= j < fonts@.len() ==> (#[trigger] fonts@[j]).1.wf(),
        ensures
            final(self).wf(),
            final(self).same_input(old(self)),
            final(self).layout_view() == old(self).input().layout(fonts_view(fonts@)),
            forall|i: int| 0 <= i < final(self).layouts@.len() && #[trigger] old(self).input().display(i) == Some(Display::Hidden) ==> slot(final(self).layout_view()[i], LayoutValue::Width) == Some(0i32)
                && slot(final(self).layout_view()[i], LayoutValue::Height) == Some(0i32),
    {
        let n = self.document.len();
        let mut fresh: Vec<NodeLayoutInfo> = Vec::new();
        let mut k: usize = 0;
        while k < n
            invariant
                k <= n,
                fresh@.len() == k,
                forall|j: int| 0 <= j < k ==> (#[trigger] fresh@[j]).wf() && forall|m: int| 0 <= m < SLOT_COUNT ==> fresh@[j]@[m] is None,
            decreases n - k,
        {
            fresh.push(NodeLayoutInfo::new());
            k += 1;
        }
        self.layouts = fresh;
        let ghost inp = self.input();
        let ghost fv = fonts_view(fonts@);
        assert(self.layout_view() =~= inp.initial()) by {
            assert forall|j: int| 0 <= j < n implies self.layout_view()[j] =~= #[trigger] inp.initial()[j] by {
                assert(self.layouts@[j].wf());
            }
        }
        let mut i: usize = 0;
        while i < n
            invariant
                self.wf(),
                n == self.document.nodes@.len(),
                i <= n,
                inp == self.input(),
                self.same_input(old(self)),
                self.layout_view() == inp.pass1(inp.initial(), i as int),
            decreases n - i,
        {
            self.layout_top_down(i);
            i += 1;
        }
        let ghost l1 = self.layout_view();
        let mut k: usize = 0;
        while k < n
            invariant
                self.wf(),
                n == self.document.nodes@.len(),
                k <= n,
                inp == self.input(),
                inp.len() == n,
                fv == fonts_view(fonts@),
                forall|j: int| 0 <= j < fonts@.len() ==> (#[trigger] fonts@[j]).1.wf(),
                self.same_input(old(self)),
                self.layout_view() == inp.pass2(l1, k as int, fv),
            decreases n - k,
        {
            if self.parent_of(k).is_none() {
                self.layout_subtree(k, n, fonts);
            }
            k += 1;
        }
        let ghost l2 = self.layout_view();
        let mut i: usize = 0;
        while i < n
            invariant
                self.wf(),
                n == self.document.nodes@.len(),
                i <= n,
                inp == self.input(),
                self.same_input(old(self)),
                self.layout_view() == inp.pass3(l2, i as int),
            decreases n - i,
        {
            self.layout_mask_top_down(i);
            i += 1;
        }
        proof {
            assert(inp.parents_ok());
            assert forall|i: int| 0 <= i < self.layouts@.len() && #[trigger] inp.display(i) == Some(Display::Hidden) implies slot(self.layout_view()[i], LayoutValue::Width) == Some(0i32)
                && slot(self.layout_view()[i], LayoutValue::Height) == Some(0i32) by {
                lemma_hidden_is_empty(inp, fv, i);
            }
        }
    }

    /// Each node's computed style is what the rules give it: elements that
    /// some rule reaches have one, seeded with their own selector, holding
    /// the cascade's choice for every property; no other node has one.
    pub open spec fn cascaded(&self, rules: Seq<Rc<Style>>) -> bool {
        &&& self.styles@.len() == self.document.nodes@.len()
        &&& forall|i: int| 0 <= i < self.document.nodes@.len() ==> match #[trigger] element_view(self.document, i) {
            Some(node) => {
                &&& (self.styles@[i] is Some) == cascade_touches(rules, node)
                &&& self.styles@[i] is Some ==> self.styles@[i]->Some_0.selector@ == node
                &&& forall|p: Seq<char>| #[trigger] self.choice(i, p) == cascade_choice(rules, node, p)
            },
            None => self.styles@[i] is None,
        }
    }

    /// The choice for property `p` of node `i`, if it has a computed style.
    pub open spec fn choice(&self, i: int, p: Seq<char>) -> Option<SelectedStyle> {
        match self.styles@[i] {
            Some(cs) => cs.selected(p),
            None => None,
        }
    }

    /// Offers `style` to every element that one of its selectors matches,
    /// at that selector's specificity; an element offered a rule for the
    /// first time gets a computed style seeded with its own selector.
    pub fn apply_style(&mut self, style: &Rc<Style>)
        requires
            old(self).wf(),
            forall|j: int| 0 <= j < style.selectors@.len() ==> (#[trigger] style.selectors@[j]).class_list@.len() <= u32::MAX,
        ensures
            final(self).wf(),
            final(self).document == old(self).document,
            final(self).viewport_width == old(self).viewport_width,
            final(self).viewport_height == old(self).viewport_height,
            final(self).layouts == old(self).layouts,
            forall|i: int| 0 <= i < old(self).document.nodes@.len() ==> match #[trigger] element_view(old(self).document, i) {
                Some(node) => {
                    &&& (final(self).styles@[i] is Some) == (old(self).styles@[i] is Some || rule_touches(*style, node, style.selectors@.len() as int))
                    &&& (old(self).styles@[i] is None && final(self).styles@[i] is Some) ==> final(self).styles@[i]->Some_0.selector@ == node
                    &&& (old(self).styles@[i] is Some) ==> final(self).styles@[i]->Some_0.selector == old(self).styles@[i]->Some_0.selector
                    &&& forall|p: Seq<char>| #[trigger] final(self).choice(i, p) == rule_step(old(self).choice(i, p), *style, node, p, style.selectors@.len() as int)
                },
                None => final(self).styles@[i] == old(self).styles@[i],
            },
    {
        let n = self.document.len();
        let mut i: usize = 0;
        while i < n
            invariant
                self.wf(),
                n == self.document.nodes@.len(),
                i <= n,
                self.document == old(self).document,
                self.viewport_width == old(self).viewport_width,
                self.viewport_height == old(self).viewport_height,
                self.layouts == old(self).layouts,
                self.styles@.len() == old(self).styles@.len(),
                forall|j: int| i <= j < n ==> self.styles@[j] == old(self).styles@[j],
                forall|j: int| 0 <= j < style.selectors@.len() ==> (#[trigger] style.selectors@[j]).class_list@.len() <= u32::MAX,
                forall|k: int| 0 <= k < i ==> match #[trigger] element_view(old(self).document, k) {
                    Some(node) => {
                        &&& (self.styles@[k] is Some) == (old(self).styles@[k] is Some || rule_touches(*style, node, style.selectors@.len() as int))
                        &&& (old(self).styles@[k] is None && self.styles@[k] is Some) ==> self.styles@[k]->Some_0.selector@ == node
                        &&& (old(self).styles@[k] is Some) ==> self.styles@[k]->Some_0.selector == old(self).styles@[k]->Some_0.selector
                        &&& forall|p: Seq<char>| #[trigger] self.choice(k, p) == rule_step(old(self).choice(k, p), *style, node, p, style.selectors@.len() as int)
                    },
                    None => self.styles@[k] == old(self).styles@[k],
                },
            decreases n - i,
        {
            let ghost pre = *self;
            let is_element = match &self.document.nodes[i].kind {
                NodeKind::Element(_) => true,
                NodeKind::Text(_) => false,
            };
            if is_element {
                let mut taken: Option<ComputedStyle> = None;
                std::mem::swap(&mut self.styles[i], &mut taken);
                let had = taken.is_some();
                let node_sel = match &self.document.nodes[i].kind {
                    NodeKind::Element(sel) => sel,
                    NodeKind::Text(_) => {
                        return;
                    },
                };
                let ghost node = node_sel@;
                let mut cs = match taken {
                    Some(c) => c,
                    None => ComputedStyle::new(node_sel.duplicate()),
                };
                let ghost start = cs;
                proof {
                    assert forall|p: Seq<char>| #[trigger] start.selected(p) == old(self).choice(i as int, p) by {
                        if !had {
                            assert(start.selected(p) is None);
                        }
                    }
                }
                let mut touched = had;
                let mut k: usize = 0;
                while k < style.selectors.len()
                    invariant
                        k <= style.selectors@.len(),
                        node == node_sel@,
                        forall|j: int| 0 <= j < style.selectors@.len() ==> (#[trigger] style.selectors@[j]).class_list@.len() <= u32::MAX,
                        touched == (had || rule_touches(*style, node, k as int)),
                        cs.selector == start.selector,
                        forall|p: Seq<char>| #[trigger] cs.selected(p) == rule_step(start.selected(p), *style, node, p, k as int),
                    decreases style.selectors@.len() - k,
                {
                    let sel = &style.selectors[k];
                    if sel.matches(node_sel) {
                        let sp = sel.specificity();
                        cs.apply_style(style.clone(), &sp);
                        touched = true;
                    }
                    proof {
                        if sel@.matches(node) {
                            assert(rule_touches(*style, node, k + 1));
                        } else {
                            assert(rule_touches(*style, node, k + 1) == rule_touches(*style, node, k as int)) by {
                                if rule_touches(*style, node, k + 1) {
                                    let j = choose|j: int| 0 <= j < k + 1 && (#[trigger] style.selectors@[j])@.matches(node);
                                    assert(j < k);
                                }
                            }
                        }
                    }
                    k += 1;
                }
                let mut result: Option<ComputedStyle> = if touched {
                    Some(cs)
                } else {
                    None
                };
                std::mem::swap(&mut self.styles[i], &mut result);
                proof {
                    assert forall|p: Seq<char>| #[trigger] self.choice(i as int, p) == rule_step(old(self).choice(i as int, p), *style, node, p, style.selectors@.len() as int) by {
                        if !touched {
                            lemma_rule_step_untouched(old(self).choice(i as int, p), *style, node, p, style.selectors@.len() as int);
                        }
                    }
                    assert(element_view(old(self).document, i as int) == Some(node));
                    assert(had == old(self).styles@[i as int] is Some);
                }
            }
            proof {
                assert forall|k: int| 0 <= k < i + 1 implies match #[trigger] element_view(old(self).document, k) {
                    Some(node) => {
                        &&& (self.styles@[k] is Some) == (old(self).styles@[k] is Some || rule_touches(*style, node, style.selectors@.len() as int))
                        &&& (old(self).styles@[k] is None && self.styles@[k] is Some) ==> self.styles@[k]->Some_0.selector@ == node
                        &&& (old(self).styles@[k] is Some) ==> self.styles@[k]->Some_0.selector == old(self).styles@[k]->Some_0.selector
                        &&& forall|p: Seq<char>| #[trigger] self.choice(k, p) == rule_step(old(self).choice(k, p), *style, node, p, style.selectors@.len() as int)
                    },
                    None => self.styles@[k] == old(self).styles@[k],
                } by {
                    if k < i {
                        assert(self.styles@[k] == pre.styles@[k]);
                        assert forall|p: Seq<char>| #[trigger] self.choice(k, p) == pre.choice(k, p) by {}
                    }
                }
            }
            i += 1;
        }
    }

    /// Computes every node's style from the rules, in order.
    pub fn compute_styles(&mut self, rules: &Vec<Rc<Style>>)
        requires
            old(self).wf(),
            forall|r: int, j: int| 0 <= r < rules@.len() && 0 <= j < rules@[r].selectors@.len() ==> (#[trigger] rules@[r].selectors@[j]).class_list@.len() <= u32::MAX,
        ensures
            final(self).wf(),
            final(self).document == old(self).document,
            final(self).viewport_width == old(self).viewport_width,
            final(self).viewport_height == old(self).viewport_height,
            final(self).layouts == old(self).layouts,
            final(self).cascaded(rules@),
    {
        let n = self.document.len();
        let mut i: usize = 0;
        while i < n
            invariant
                self.wf(),
                n == self.document.nodes@.len(),
                i <= n,
                self.document == old(self).document,
                self.viewport_width == old(self).viewport_width,
                self.viewport_height == old(self).viewport_height,
                self.layouts == old(self).layouts,
                forall|j: int| 0 <= j < i ==> self.styles@[j] is None,
            decreases n - i,
        {
            self.styles.set(i, None);
            i += 1;
        }
        let mut r: usize = 0;
        while r < rules.len()
            invariant
                self.wf(),
                n == self.document.nodes@.len(),
                r <= rules@.len(),
                self.document == old(self).document,
                self.viewport_width == old(self).viewport_width,
                self.viewport_height == old(self).viewport_height,
                self.layouts == old(self).layouts,
                forall|q: int, j: int| 0 <= q < rules@.len() && 0 <= j < rules@[q].selectors@.len() ==> (#[trigger] rules@[q].selectors@[j]).class_list@.len() <= u32::MAX,
                forall|k: int| 0 <= k < n ==> match #[trigger] element_view(old(self).document, k) {
                    Some(node) => {
                        &&& (self.styles@[k] is Some) == cascade_touches(rules@.subrange(0, r as int), node)
                        &&& self.styles@[k] is Some ==> self.styles@[k]->Some_0.selector@ == node
                        &&& forall|p: Seq<char>| #[trigger] self.choice(k, p) == cascade_choice(rules@.subrange(0, r as int), node, p)
                    },
                    None => self.styles@[k] is None,
                },
            decreases rules@.len() - r,
        {
            let ghost before = *self;
            self.apply_style(&rules[r]);
            proof {
                let pre = rules@.subrange(0, r as int);
                let post = rules@.subrange(0, r + 1);
                assert(post.drop_last() =~= pre);
                assert(post.last() == rules@[r as int]);
                assert forall|k: int| 0 <= k < n implies match #[trigger] element_view(old(self).document, k) {
                    Some(node) => {
                        &&& (self.styles@[k] is Some) == cascade_touches(post, node)
                        &&& self.styles@[k] is Some ==> self.styles@[k]->Some_0.selector@ == node
                        &&& forall|p: Seq<char>| #[trigger] self.choice(k, p) == cascade_choice(post, node, p)
                    },
                    None => self.styles@[k] is None,
                } by {
                    match element_view(old(self).document, k) {
                        Some(node) => {
                            lemma_touches_push(pre, rules@[r as int], node);
                            assert(post =~= pre.push(rules@[r as int]));
                            assert forall|p: Seq<char>| #[trigger] self.choice(k, p) == cascade_choice(post, node, p) by {
                                assert(self.choice(k, p) == rule_step(before.choice(k, p), rules@[r as int], node, p, rules@[r as int].selectors@.len() as int));
                            }
                        },
                        None => {},
                    }
                }
            }
            r += 1;
        }
        assert(rules@.subrange(0, rules@.len() as int) =~= rules@);
    }
}

/// The position of the first pair with key `key`.
pub fn key_position<V>(v: &Vec<(String, V)>, key: &str) -> (r: Option<usize>)
    ensures
        match r {
            Some(j) => j < v@.len() && lookup(v@.map_values(|p: (String, V)| (p.0@, p.1)), key@) == Some(v@[j as int].1),
            None => lookup(v@.map_values(|p: (String, V)| (p.0@, p.1)), key@) is None,
        },
{
    let ghost ps = v@.map_values(|p: (String, V)| (p.0@, p.1));
    let mut i: usize = 0;
    assert(ps.subrange(0, ps.len() as int) =~= ps);
    while i < v.len()
        invariant
            ps == v@.map_values(|p: (String, V)| (p.0@, p.1)),
            i <= v.len(),
            lookup(ps, key@) == lookup(ps.subrange(i as int, ps.len() as int), key@),
        decreases v.len() - i,
    {
        if same_text(v[i].0.as_str(), key) {
            assert(ps.subrange(i as int, ps.len() as int)[0] == ps[i as int]);
            return Some(i);
        }
        proof {
            lemma_lookup_skip(ps, i as int, key@);
        }
        i += 1;
    }
    assert(ps.subrange(i as int, ps.len() as int) =~= Seq::<(Seq<char>, V)>::empty());
    None
}

pub proof fn lemma_lookup_in<V>(s: Seq<(Seq<char>, V)>, k: Seq<char>)
    requires
        lookup(s, k) is Some,
    ensures
        exists|j: int| 0 <= j < s.len() && s[j].1 == lookup(s, k)->Some_0,
    decreases s.len(),
{
    if s[0].0 != k {
        lemma_lookup_in(s.drop_first(), k);
        let j = choose|j: int| 0 <= j < s.drop_first().len() && s.drop_first()[j].1 == lookup(s, k)->Some_0;
        assert(s[j + 1] == s.drop_first()[j]);
    }
}

proof fn lemma_found_font_wf(names: Seq<Seq<char>>, fonts: Seq<(String, FontMetrics)>)
    requires
        forall|j: int| 0 <= j < fonts.len() ==> (#[trigger] fonts[j]).1.wf(),
    ensures
        find_font(names, fonts_view(fonts)) matches Some(m) ==> m.wf(),
    decreases names.len(),
{
    if names.len() > 0 {
        let fv = fonts_view(fonts);
        match lookup(fv, lowercase_of(trim_of(names[0]))) {
            Some(m) => {
                lemma_lookup_in(fv, lowercase_of(trim_of(names[0])));
                let j = choose|j: int| 0 <= j < fv.len() && fv[j].1 == m;
                assert(fonts[j].1.wf());
            },
            None => {
                lemma_found_font_wf(names.drop_first(), fonts);
            },
        }
    }
}

/// The selector of node `i`, if it is an element.
pub open spec fn element_view(doc: Document, i: int) -> Option<SelectorView> {
    match doc.nodes@[i].kind {
        NodeKind::Element(sel) => Some(sel@),
        NodeKind::Text(_) => None,
    }
}

/// Whether one of the first `k` selectors of `style` matches `node`.
pub open spec fn rule_touches(style: Rc<Style>, node: SelectorView, k: int) -> bool {
    exists|j: int| 0 <= j < k && (#[trigger] style.selectors@[j])@.matches(node)
}

/// The choice for property `p` after `style` is offered at each of its
/// first `k` selectors that match `node`.
pub open spec fn rule_step(cur: Option<SelectedStyle>, style: Rc<Style>, node: SelectorView, p: Seq<char>, k: int) -> Option<SelectedStyle>
    decreases k,
{
    if k <= 0 {
        cur
    } else {
        let c = rule_step(cur, style, node, p, k - 1);
        let sel = style.selectors@[k - 1]@;
        if sel.matches(node) {
            cascade_step(c, style, sel.specificity(), p)
        } else {
            c
        }
    }
}

/// The rule chosen for property `p` of an element described by `node` once
/// every rule has been offered in order.
pub open spec fn cascade_choice(rules: Seq<Rc<Style>>, node: SelectorView, p: Seq<char>) -> Option<SelectedStyle>
    decreases rules.len(),
{
    if rules.len() == 0 {
        None
    } else {
        rule_step(cascade_choice(rules.drop_last(), node, p), rules.last(), node, p, rules.last().selectors@.len() as int)
    }
}

/// Whether some selector of some rule matches `node`.
pub open spec fn cascade_touches(rules: Seq<Rc<Style>>, node: SelectorView) -> bool {
    exists|r: int, j: int| 0 <= r < rules.len() && 0 <= j < rules[r].selectors@.len() && (#[trigger] rules[r].selectors@[j])@.matches(node)
}

proof fn lemma_rule_step_untouched(cur: Option<SelectedStyle>, style: Rc<Style>, node: SelectorView, p: Seq<char>, k: int)
    requires
        !rule_touches(style, node, k),
    ensures
        rule_step(cur, style, node, p, k) == cur,
    decreases k,
{
    if k > 0 {
        assert(!rule_touches(style, node, k - 1)) by {
            if rule_touches(style, node, k - 1) {
                let j = choose|j: int| 0 <= j < k - 1 && (#[trigger] style.selectors@[j])@.matches(node);
                assert(0 <= j < k);
            }
        }
        assert(!style.selectors@[k - 1]@.matches(node));
        lemma_rule_step_untouched(cur, style, node, p, k - 1);
    }
}

proof fn lemma_touches_push(rules: Seq<Rc<Style>>, rule: Rc<Style>, node: SelectorView)
    ensures
        cascade_touches(rules.push(rule), node) == (cascade_touches(rules, node) || rule_touches(rule, node, rule.selectors@.len() as int)),
{
    let all = rules.push(rule);
    if cascade_touches(all, node) {
        let (r, j) = choose|r: int, j: int| 0 <= r < all.len() && 0 <= j < all[r].selectors@.len() && (#[trigger] all[r].selectors@[j])@.matches(node);
        if r < rules.len() {
            assert(rules[r].selectors@[j] == all[r].selectors@[j]);
        } else {
            assert(rule.selectors@[j]@.matches(node));
        }
    }
    if cascade_touches(rules, node) {
        let (r, j) = choose|r: int, j: int| 0 <= r < rules.len() && 0 <= j < rules[r].selectors@.len() && (#[trigger] rules[r].selectors@[j])@.matches(node);
        assert(all[r].selectors@[j] == rules[r].selectors@[j]);
    }
    if rule_touches(rule, node, rule.selectors@.len() as int) {
        let j = choose|j: int| 0 <= j < rule.selectors@.len() && (#[trigger] rule.selectors@[j])@.matches(node);
        assert(all[rules.len() as int] == rule);
        assert(all[rules.len() as int].selectors@[j]@.matches(node));
    }
}

/// The layout input of a document once the rules are cascaded onto it: each
/// element that a rule reaches has the raw values of the rules chosen for
/// its properties.
pub open spec fn cascade_model(doc: Document, rules: Seq<Rc<Style>>) -> Seq<Option<Map<Seq<char>, Seq<char>>>> {
    Seq::new(
        doc.nodes@.len(),
        |i: int|
            match element_view(doc, i) {
                Some(node) => if cascade_touches(rules, node) {
                    Some(
                        Map::new(
                            |p: Seq<char>|
                                cascade_choice(rules, node, p) matches Some(sel) && sel.style.raw(p) is Some,
                            |p: Seq<char>| cascade_choice(rules, node, p)->Some_0.style.raw(p)->Some_0,
                        ),
                    )
                } else {
                    None
                },
                None => None,
            },
    )
}

/// The layout records of a document after cascading `rules` onto it and
/// laying it out in a viewport of the given size.
pub open spec fn rendered(
    doc: Document,
    rules: Seq<Rc<Style>>,
    vw: int,
    vh: int,
    fonts: Seq<(Seq<char>, FontMetrics)>,
) -> Seq<Seq<Option<i32>>> {
    LayoutInput { parents: doc.parents(), texts: doc.texts(), styles: cascade_model(doc, rules), vw, vh }.layout(fonts)
}

impl Page {
    /// Cascades the rules onto the document, then lays it out.
    pub fn refresh(&mut self, rules: &Vec<Rc<Style>>, fonts: &Vec<(String, FontMetrics)>)
        requires
            old(self).wf(),
            forall|r: int, j: int| 0 <= r < rules@.len() && 0 <= j < rules@[r].selectors@.len() ==> (#[trigger] rules@[r].selectors@[j]).class_list@.len() <= u32::MAX,
            forall|j: int| 0 <= j < fonts@.len() ==> (#[trigger] fonts@[j]).1.wf(),
        ensures
            final(self).wf(),
            final(self).document == old(self).document,
            final(self).viewport_width == old(self).viewport_width,
            final(self).viewport_height == old(self).viewport_height,
            final(self).layout_view() == rendered(
                old(self).document,
                rules@,
                old(self).viewport_width as int,
                old(self).viewport_height as int,
                fonts_view(fonts@),
            ),
    {
        self.compute_styles(rules);
        proof {
            assert(self.style_model() =~= cascade_model(self.document, rules@)) by {
                assert forall|i: int| 0 <= i < self.styles@.len() implies #[trigger] self.style_model()[i] == cascade_model(self.document, rules@)[i] by {
                    match element_view(self.document, i) {
                        Some(node) => {
                            if self.styles@[i] is Some {
                                let cs = self.styles@[i]->Some_0;
                                assert(raw_map(cs) =~= Map::new(
                                    |p: Seq<char>| cascade_choice(rules@, node, p) matches Some(sel) && sel.style.raw(p) is Some,
                                    |p: Seq<char>| cascade_choice(rules@, node, p)->Some_0.style.raw(p)->Some_0,
                                )) by {
                                    assert forall|p: Seq<char>| #[trigger] cs.raw(p) == (match cascade_choice(rules@, node, p) {
                                        Some(sel) => sel.style.raw(p),
                                        None => None,
                                    }) by {
                                        assert(self.choice(i, p) == cascade_choice(rules@, node, p));
                                    }
                                }
                            }
                        },
                        None => {},
                    }
                }
            }
        }
        self.compute_layout(fonts);
    }
}

/// Cascade and layout read nothing but the document, the rules, the
/// viewport and the fonts: running them again on the same inputs gives the
/// same layout records, whatever styles and records the page held before.
pub proof fn lemma_refresh_idempotent(
    first: Page,
    second: Page,
    rules: Seq<Rc<Style>>,
    fonts: Seq<(Seq<char>, FontMetrics)>,
)
    requires
        first.document == second.document,
        first.viewport_width == second.viewport_width,
        first.viewport_height == second.viewport_height,
    ensures
        rendered(first.document, rules, first.viewport_width as int, first.viewport_height as int, fonts)
            == rendered(second.document, rules, second.viewport_width as int, second.viewport_height as int, fonts),
{
}

/// Of two rules whose only selectors have equal specificity, both matching
/// an element and both setting a property, the one offered first keeps the
/// property.
pub proof fn lemma_first_rule_wins_tie(first: Rc<Style>, second: Rc<Style>, node: SelectorView, p: Seq<char>)
    requires
        first.selectors@.len() == 1,
        second.selectors@.len() == 1,
        first.selectors@[0]@.matches(node),
        second.selectors@[0]@.matches(node),
        first.selectors@[0]@.specificity() == second.selectors@[0]@.specificity(),
        first.raw(p) is Some,
        second.raw(p) is Some,
    ensures
        cascade_choice(seq![first, second], node, p) == Some(
            SelectedStyle { specificity: first.selectors@[0]@.specificity(), style: first },
        ),
{
    let rules = seq![first, second];
    assert(rules.drop_last() =~= seq![first]);
    assert(seq![first].drop_last() =~= Seq::<Rc<Style>>::empty());
    assert(cascade_choice(Seq::<Rc<Style>>::empty(), node, p) is None);
    assert(seq![first].last() == first);
    assert(rules.last() == second);
    assert(cascade_choice(seq![first], node, p) == rule_step(None, first, node, p, 1));
    assert(rule_step(None, first, node, p, 0) is None);
    assert(rule_step(Some(SelectedStyle { specificity: first.selectors@[0]@.specificity(), style: first }), second, node, p, 0)
        == Some(SelectedStyle { specificity: first.selectors@[0]@.specificity(), style: first }));
}

/// A percentage of the width slot is taken of the parent's width; one of a
/// padding slot of the node's own width.
pub proof fn lemma_percent_bases(inp: LayoutInput, ls: Seq<Seq<Option<i32>>>, i: int, v: Number)
    requires
        0 <= i < ls.len(),
    ensures
        inp.parents[i] matches Some(p) ==> slot(ls[p as int], LayoutValue::Width) matches Some(b) ==>
            inp.resolve(ls, LayoutValue::Width, Some(v), Some(Unit::Percent), i) == Some(v.scaled(b as int, 100)),
        slot(ls[i], LayoutValue::Width) matches Some(w) ==> inp.resolve(ls, LayoutValue::PaddingTop, Some(v), Some(Unit::Percent), i)
            == Some(v.scaled(w as int, 100)),
{
}

/// Record `i` is a full record whose width and height are zero.
pub open spec fn box_zero(ls: Seq<Seq<Option<i32>>>, i: int) -> bool {
    &&& 0 <= i < ls.len()
    &&& ls[i].len() == SLOT_COUNT
    &&& slot(ls[i], LayoutValue::Width) == Some(0i32)
    &&& slot(ls[i], LayoutValue::Height) == Some(0i32)
}

impl LayoutInput {
    /// Every parent comes before its child.
    pub open spec fn parents_ok(self) -> bool {
        &&& self.texts.len() == self.parents.len()
        &&& self.styles.len() == self.parents.len()
        &&& forall|j: int| 0 <= j < self.parents.len() ==> (#[trigger] self.parents[j] matches Some(p) ==> p < j)
    }
}

proof fn lemma_set_size_keeps(inp: LayoutInput, ls: Seq<Seq<Option<i32>>>, which: LayoutValue, j: int)
    requires
        0 <= j < ls.len(),
        ls[j].len() == SLOT_COUNT,
        which.has_property(),
    ensures
        inp.set_size(ls, which, j).len() == ls.len(),
        inp.set_size(ls, which, j)[j].len() == ls[j].len(),
        forall|q: int| 0 <= q < ls.len() && q != j ==> #[trigger] inp.set_size(ls, which, j)[q] == ls[q],
        forall|i: int| box_zero(ls, i) ==> #[trigger] box_zero(inp.set_size(ls, which, j), i),
        forall|k: int| 0 <= k < SLOT_COUNT && k != which.idx() ==> #[trigger] inp.set_size(ls, which, j)[j][k] == ls[j][k],
{
    reveal(LayoutInput::set_size);
}

proof fn lemma_edges_keep(inp: LayoutInput, ls: Seq<Seq<Option<i32>>>, j: int)
    requires
        0 <= j < ls.len(),
        ls[j].len() == SLOT_COUNT,
    ensures
        inp.edges(ls, j).len() == ls.len(),
        inp.edges(ls, j)[j].len() == ls[j].len(),
        forall|q: int| 0 <= q < ls.len() && q != j ==> #[trigger] inp.edges(ls, j)[q] == ls[q],
        forall|i: int| box_zero(ls, i) ==> #[trigger] box_zero(inp.edges(ls, j), i),
        forall|k: int| (0 <= k < 5 || 17 <= k < 27) ==> #[trigger] inp.edges(ls, j)[j][k] == ls[j][k],
{
    let l1 = inp.set_size(ls, LayoutValue::PaddingTop, j);
    lemma_set_size_keeps(inp, ls, LayoutValue::PaddingTop, j);
    let l2 = inp.set_size(l1, LayoutValue::PaddingRight, j);
    lemma_set_size_keeps(inp, l1, LayoutValue::PaddingRight, j);
    let l3 = inp.set_size(l2, LayoutValue::PaddingBottom, j);
    lemma_set_size_keeps(inp, l2, LayoutValue::PaddingBottom, j);
    let l4 = inp.set_size(l3, LayoutValue::PaddingLeft, j);
    lemma_set_size_keeps(inp, l3, LayoutValue::PaddingLeft, j);
    let b1 = inp.set_size(l4, LayoutValue::BorderTopWidth, j);
    lemma_set_size_keeps(inp, l4, LayoutValue::BorderTopWidth, j);
    let b2 = inp.set_size(b1, LayoutValue::BorderRightWidth, j);
    lemma_set_size_keeps(inp, b1, LayoutValue::BorderRightWidth, j);
    let b3 = inp.set_size(b2, LayoutValue::BorderBottomWidth, j);
    lemma_set_size_keeps(inp, b2, LayoutValue::BorderBottomWidth, j);
    let b4 = inp.set_size(b3, LayoutValue::BorderLeftWidth, j);
    lemma_set_size_keeps(inp, b3, LayoutValue::BorderLeftWidth, j);
    let b5 = inp.set_size(b4, LayoutValue::BorderTopLeftRadius, j);
    lemma_set_size_keeps(inp, b4, LayoutValue::BorderTopLeftRadius, j);
    let b6 = inp.set_size(b5, LayoutValue::BorderTopRightRadius, j);
    lemma_set_size_keeps(inp, b5, LayoutValue::BorderTopRightRadius, j);
    let b7 = inp.set_size(b6, LayoutValue::BorderBottomRightRadius, j);
    lemma_set_size_keeps(inp, b6, LayoutValue::BorderBottomRightRadius, j);
    let b8 = inp.set_size(b7, LayoutValue::BorderBottomLeftRadius, j);
    lemma_set_size_keeps(inp, b7, LayoutValue::BorderBottomLeftRadius, j);
    let m1 = inp.set_size(b8, LayoutValue::MarginTop, j);
    lemma_set_size_keeps(inp, b8, LayoutValue::MarginTop, j);
    let m2 = inp.set_size(m1, LayoutValue::MarginRight, j);
    lemma_set_size_keeps(inp, m1, LayoutValue::MarginRight, j);
    let m3 = inp.set_size(m2, LayoutValue::MarginBottom, j);
    lemma_set_size_keeps(inp, m2, LayoutValue::MarginBottom, j);
    lemma_set_size_keeps(inp, m3, LayoutValue::MarginLeft, j);
}

proof fn lemma_pass1_node_zero(inp: LayoutInput, ls: Seq<Seq<Option<i32>>>, j: int)
    requires
        0 <= j < ls.len(),
        ls[j].len() == SLOT_COUNT,
    ensures
        inp.pass1_node(ls, j).len() == ls.len(),
        inp.pass1_node(ls, j)[j].len() == SLOT_COUNT,
        forall|q: int| 0 <= q < ls.len() && q != j ==> #[trigger] inp.pass1_node(ls, j)[q] == ls[q],
        forall|i: int| box_zero(ls, i) ==> #[trigger] box_zero(inp.pass1_node(ls, j), i),
        inp.display(j) == Some(Display::Hidden) ==> box_zero(inp.pass1_node(ls, j), j),
{
    let l1 = inp.set_size(ls, LayoutValue::FontSize, j);
    lemma_set_size_keeps(inp, ls, LayoutValue::FontSize, j);
    let l2 = inp.top_down_box(l1, j);
    match inp.display(j) {
        Some(Display::Block) | Some(Display::InlineBlock) => {
            lemma_set_size_keeps(inp, l1, LayoutValue::Width, j);
            lemma_set_size_keeps(inp, inp.set_size(l1, LayoutValue::Width, j), LayoutValue::Height, j);
        },
        _ => {},
    }
    if inp.display(j) != Some(Display::Hidden) {
        lemma_edges_keep(inp, l2, j);
    }
}

proof fn lemma_pass1_zero(inp: LayoutInput, ls: Seq<Seq<Option<i32>>>, k: int)
    requires
        0 <= k <= ls.len(),
        forall|j: int| 0 <= j < ls.len() ==> (#[trigger] ls[j]).len() == SLOT_COUNT,
    ensures
        inp.pass1(ls, k).len() == ls.len(),
        forall|j: int| 0 <= j < ls.len() ==> (#[trigger] inp.pass1(ls, k)[j]).len() == SLOT_COUNT,
        forall|j: int| k <= j < ls.len() ==> #[trigger] inp.pass1(ls, k)[j] == ls[j],
        forall|i: int| 0 <= i < k && inp.display(i) == Some(Display::Hidden) ==> #[trigger] box_zero(inp.pass1(ls, k), i),
    decreases k,
{
    if k > 0 {
        lemma_pass1_zero(inp, ls, k - 1);
        let prev = inp.pass1(ls, k - 1);
        lemma_pass1_node_zero(inp, prev, k - 1);
        assert forall|j: int| k <= j < ls.len() implies #[trigger] inp.pass1(ls, k)[j] == ls[j] by {
            lemma_pass1_node_frame(inp, prev, k - 1, j);
        }
        assert forall|j: int| 0 <= j < ls.len() implies (#[trigger] inp.pass1(ls, k)[j]).len() == SLOT_COUNT by {
            if j != k - 1 {
                lemma_pass1_node_frame(inp, prev, k - 1, j);
            }
        }
    }
}

proof fn lemma_pass1_node_frame(inp: LayoutInput, ls: Seq<Seq<Option<i32>>>, j: int, i: int)
    requires
        0 <= j < ls.len(),
        0 <= i < ls.len(),
        i != j,
        ls[j].len() == SLOT_COUNT,
    ensures
        inp.pass1_node(ls, j)[i] == ls[i],
{
    lemma_pass1_node_zero(inp, ls, j);
}

proof fn lemma_flow_keeps(v: Seq<Option<i32>>, w: int, h: int)
    requires
        v.len() == SLOT_COUNT,
    ensures
        flow_inline_spec(v, w, h).0.len() == SLOT_COUNT,
        slot(flow_inline_spec(v, w, h).0, LayoutValue::Width) == slot(v, LayoutValue::Width),
        slot(flow_inline_spec(v, w, h).0, LayoutValue::Height) == slot(v, LayoutValue::Height),
        flow_block_spec(v, w, h).0.len() == SLOT_COUNT,
        slot(flow_block_spec(v, w, h).0, LayoutValue::Width) == slot(v, LayoutValue::Width),
        slot(flow_block_spec(v, w, h).0, LayoutValue::Height) == slot(v, LayoutValue::Height),
{
}

proof fn lemma_text_flow_keeps(v: Seq<Option<i32>>, upem: int, adv: Seq<(char, u16)>, text: Seq<char>, lh: int)
    requires
        v.len() == SLOT_COUNT,
    ensures
        text_flow(v, upem, adv, text, lh).len() == SLOT_COUNT,
        slot(text_flow(v, upem, adv, text, lh), LayoutValue::Width) == slot(v, LayoutValue::Width),
        slot(text_flow(v, upem, adv, text, lh), LayoutValue::Height) == slot(v, LayoutValue::Height),
    decreases text.len(),
{
    if text.len() > 0 {
        lemma_text_flow_keeps(v, upem, adv, text.drop_last(), lh);
        let v1 = text_flow(v, upem, adv, text.drop_last(), lh);
        match crate::font::advance_of(adv, text.last()) {
            Some(a) => {
                lemma_flow_keeps(v1, crate::font::glyph_width(a as int, lh, upem) as int, lh);
            },
            None => {},
        }
    }
}

/// Records all full and `box_zero` records kept.
pub open spec fn frame_ok(before: Seq<Seq<Option<i32>>>, after: Seq<Seq<Option<i32>>>) -> bool {
    &&& after.len() == before.len()
    &&& forall|q: int| 0 <= q < after.len() ==> (#[trigger] after[q]).len() == SLOT_COUNT
    &&& forall|i: int| box_zero(before, i) ==> #[trigger] box_zero(after, i)
}

proof fn lemma_flow_child_keeps(inp: LayoutInput, ls: Seq<Seq<Option<i32>>>, p: int, j: int, fonts: Seq<(Seq<char>, FontMetrics)>)
    requires
        0 <= p < j < ls.len(),
        p <= usize::MAX,
        inp.parents[j] == Some(p as usize),
        forall|q: int| 0 <= q < ls.len() ==> (#[trigger] ls[q]).len() == SLOT_COUNT,
    ensures
        frame_ok(ls, inp.flow_child(ls, p, j, fonts)),
{
    let r = inp.flow_child(ls, p, j, fonts);
    assert((p as usize) as int == p);
    match inp.texts[j] {
        Some(t) => {
            assert(r == inp.text_content(ls, j, t, fonts));
            if trim_of(t).len() != 0 {
                match inp.font_for(p, fonts) {
                    Some(m) => {
                        let lh = or_zero(slot(ls[p], LayoutValue::FontSize));
                        lemma_text_flow_keeps(ls[p], m.units_per_em as int, m.advances@, trim_of(t), lh);
                        assert(r == ls.update(p, text_flow(ls[p], m.units_per_em as int, m.advances@, trim_of(t), lh)));
                    },
                    None => {
                        assert(r == ls);
                    },
                }
            } else {
                assert(r == ls);
            }
            assert forall|q: int| 0 <= q < r.len() implies (#[trigger] r[q]).len() == SLOT_COUNT by {}
            assert forall|i: int| box_zero(ls, i) implies #[trigger] box_zero(r, i) by {}
        },
        None => {
            let me = ls[j];
            let w = or_zero(slot(me, LayoutValue::Width));
            let h = or_zero(slot(me, LayoutValue::Height));
            lemma_flow_keeps(ls[p], w, h);
            assert forall|q: int| 0 <= q < r.len() implies (#[trigger] r[q]).len() == SLOT_COUNT by {}
            assert forall|i: int| box_zero(ls, i) implies #[trigger] box_zero(r, i) by {}
        },
    }
}

proof fn lemma_frame_refl(ls: Seq<Seq<Option<i32>>>)
    requires
        forall|q: int| 0 <= q < ls.len() ==> (#[trigger] ls[q]).len() == SLOT_COUNT,
    ensures
        frame_ok(ls, ls),
{
}

proof fn lemma_frame_trans(a: Seq<Seq<Option<i32>>>, b: Seq<Seq<Option<i32>>>, c: Seq<Seq<Option<i32>>>)
    requires
        frame_ok(a, b),
        frame_ok(b, c),
    ensures
        frame_ok(a, c),
{
    assert forall|i: int| box_zero(a, i) implies #[trigger] box_zero(c, i) by {
        assert(box_zero(b, i));
    }
}

/// What the pass-2 lemmas need of a set of records.
pub open spec fn records_ok(inp: LayoutInput, ls: Seq<Seq<Option<i32>>>) -> bool {
    &&& ls.len() == inp.len()
    &&& ls.len() <= usize::MAX
    &&& inp.parents_ok()
    &&& forall|q: int| 0 <= q < ls.len() ==> (#[trigger] ls[q]).len() == SLOT_COUNT
}

proof fn lemma_place_self_keeps(inp: LayoutInput, ls: Seq<Seq<Option<i32>>>, i: int, fonts: Seq<(Seq<char>, FontMetrics)>)
    requires
        records_ok(inp, ls),
        0 <= i < ls.len(),
    ensures
        frame_ok(ls, inp.place_self(ls, i, fonts)),
{
    match inp.parents[i] {
        Some(p) => {
            assert(p < i);
            lemma_flow_child_keeps(inp, ls, p as int, i, fonts);
        },
        None => {
            let r = inp.place_self(ls, i, fonts);
            assert forall|q: int| 0 <= q < r.len() implies (#[trigger] r[q]).len() == SLOT_COUNT by {}
            assert forall|k: int| box_zero(ls, k) implies #[trigger] box_zero(r, k) by {}
        },
    }
}

proof fn lemma_pass2_node_keeps(inp: LayoutInput, ls: Seq<Seq<Option<i32>>>, i: int, fonts: Seq<(Seq<char>, FontMetrics)>)
    requires
        records_ok(inp, ls),
        0 <= i < ls.len(),
    ensures
        frame_ok(ls, inp.pass2_node(ls, i, fonts)),
{
    if inp.texts[i] is Some {
        lemma_place_self_keeps(inp, ls, i, fonts);
    } else {
        let l1 = ls.update(i, content_based(break_line_spec(ls[i])));
        assert forall|q: int| 0 <= q < l1.len() implies (#[trigger] l1[q]).len() == SLOT_COUNT by {}
        assert forall|k: int| box_zero(ls, k) implies #[trigger] box_zero(l1, k) by {}
        lemma_edges_keep(inp, l1, i);
        let l2 = inp.edges(l1, i);
        assert forall|q: int| 0 <= q < l2.len() implies (#[trigger] l2[q]).len() == SLOT_COUNT by {
            if q != i {
                assert(l2[q] == l1[q]);
            }
        }
        lemma_place_self_keeps(inp, l2, i, fonts);
        lemma_frame_trans(ls, l1, l2);
        lemma_frame_trans(ls, l2, inp.place_self(l2, i, fonts));
    }
}

proof fn lemma_subtree_keeps(inp: LayoutInput, ls: Seq<Seq<Option<i32>>>, i: int, fonts: Seq<(Seq<char>, FontMetrics)>)
    requires
        records_ok(inp, ls),
    ensures
        frame_ok(ls, inp.subtree_pass(ls, i, fonts)),
    decreases inp.len() - i, inp.len() - i + 1,
{
    if i < 0 || i >= inp.len() {
        lemma_frame_refl(ls);
    } else {
        lemma_children_keeps(inp, ls, i, i + 1, fonts);
        let c = inp.children_pass(ls, i, i + 1, fonts);
        lemma_pass2_node_keeps(inp, c, i, fonts);
        lemma_frame_trans(ls, c, inp.pass2_node(c, i, fonts));
    }
}

proof fn lemma_children_keeps(inp: LayoutInput, ls: Seq<Seq<Option<i32>>>, p: int, j: int, fonts: Seq<(Seq<char>, FontMetrics)>)
    requires
        records_ok(inp, ls),
    ensures
        frame_ok(ls, inp.children_pass(ls, p, j, fonts)),
    decreases inp.len() - p, inp.len() - j,
{
    if j <= p || p < 0 || j >= inp.len() {
        lemma_frame_refl(ls);
    } else {
        let l1 = if inp.parents[j] == Some(p as usize) {
            inp.subtree_pass(ls, j, fonts)
        } else {
            ls
        };
        if inp.parents[j] == Some(p as usize) {
            lemma_subtree_keeps(inp, ls, j, fonts);
        } else {
            lemma_frame_refl(ls);
        }
        lemma_children_keeps(inp, l1, p, j + 1, fonts);
        lemma_frame_trans(ls, l1, inp.children_pass(l1, p, j + 1, fonts));
    }
}

proof fn lemma_pass2_zero(inp: LayoutInput, ls: Seq<Seq<Option<i32>>>, k: int, fonts: Seq<(Seq<char>, FontMetrics)>)
    requires
        0 <= k <= ls.len(),
        records_ok(inp, ls),
    ensures
        frame_ok(ls, inp.pass2(ls, k, fonts)),
    decreases k,
{
    if k > 0 {
        lemma_pass2_zero(inp, ls, k - 1, fonts);
        let prev = inp.pass2(ls, k - 1, fonts);
        if inp.parents[k - 1] is None {
            lemma_subtree_keeps(inp, prev, k - 1, fonts);
            lemma_frame_trans(ls, prev, inp.subtree_pass(prev, k - 1, fonts));
        }
    } else {
        lemma_frame_refl(ls);
    }
}

proof fn lemma_pass3_zero(inp: LayoutInput, ls: Seq<Seq<Option<i32>>>, k: int)
    requires
        0 <= k <= ls.len(),
        ls.len() == inp.len(),
        inp.parents_ok(),
        forall|q: int| 0 <= q < ls.len() ==> (#[trigger] ls[q]).len() == SLOT_COUNT,
    ensures
        inp.pass3(ls, k).len() == ls.len(),
        forall|q: int| 0 <= q < ls.len() ==> (#[trigger] inp.pass3(ls, k)[q]).len() == SLOT_COUNT,
        forall|i: int| box_zero(ls, i) ==> #[trigger] box_zero(inp.pass3(ls, k), i),
    decreases k,
{
    if k > 0 {
        lemma_pass3_zero(inp, ls, k - 1);
        let prev = inp.pass3(ls, k - 1);
        let next = inp.pass3_node(prev, k - 1);
        assert forall|q: int| 0 <= q < ls.len() implies (#[trigger] next[q]).len() == SLOT_COUNT by {}
        assert forall|i: int| box_zero(prev, i) implies #[trigger] box_zero(next, i) by {}
    }
}

/// After layout, a node whose display is `none` is zero wide and zero high,
/// whatever width and height its style sets.
pub proof fn lemma_hidden_is_empty(inp: LayoutInput, fonts: Seq<(Seq<char>, FontMetrics)>, i: int)
    requires
        inp.parents_ok(),
        inp.len() <= usize::MAX,
        0 <= i < inp.len(),
        inp.display(i) == Some(Display::Hidden),
    ensures
        slot(inp.layout(fonts)[i], LayoutValue::Width) == Some(0i32),
        slot(inp.layout(fonts)[i], LayoutValue::Height) == Some(0i32),
{
    let init = inp.initial();
    assert forall|q: int| 0 <= q < init.len() implies (#[trigger] init[q]).len() == SLOT_COUNT by {}
    lemma_pass1_zero(inp, init, inp.len());
    let l1 = inp.pass1(init, inp.len());
    assert(box_zero(l1, i));
    lemma_pass2_zero(inp, l1, inp.len(), fonts);
    let l2 = inp.pass2(l1, inp.len(), fonts);
    lemma_pass3_zero(inp, l2, inp.len());
    assert(box_zero(inp.layout(fonts), i));
}

/// Cascading is idempotent: two pages over the same document that both hold
/// the cascade of the same rules (for instance, one cascaded once and one
/// cascaded twice) have computed styles for the same nodes, with the same
/// selectors and, for every property, the same chosen rule and specificity.
pub proof fn lemma_cascade_idempotent(a: Page, b: Page, rules: Seq<Rc<Style>>)
    requires
        a.document == b.document,
        a.cascaded(rules),
        b.cascaded(rules),
    ensures
        forall|i: int| 0 <= i < a.document.nodes@.len() ==> {
            &&& (#[trigger] a.styles@[i] is Some) == (b.styles@[i] is Some)
            &&& a.styles@[i] is Some ==> a.styles@[i]->Some_0.selector@ == b.styles@[i]->Some_0.selector@
            &&& forall|p: Seq<char>| #[trigger] a.choice(i, p) == b.choice(i, p)
        },
{
    assert forall|i: int| 0 <= i < a.document.nodes@.len() implies {
        &&& (#[trigger] a.styles@[i] is Some) == (b.styles@[i] is Some)
        &&& a.styles@[i] is Some ==> a.styles@[i]->Some_0.selector@ == b.styles@[i]->Some_0.selector@
        &&& forall|p: Seq<char>| #[trigger] a.choice(i, p) == b.choice(i, p)
    } by {
        match element_view(a.document, i) {
            Some(node) => {
                assert forall|p: Seq<char>| #[trigger] a.choice(i, p) == b.choice(i, p) by {
                    assert(a.choice(i, p) == cascade_choice(rules, node, p));
                    assert(b.choice(i, p) == cascade_choice(rules, node, p));
                }
            },
            None => {
                assert forall|p: Seq<char>| #[trigger] a.choice(i, p) == b.choice(i, p) by {}
            },
        }
    }
}

/// Selector `j` of rule `r` matches `node`, and rule `r` sets `p`.
pub open spec fn offered(rules: Seq<Rc<Style>>, node: SelectorView, p: Seq<char>, r: int, j: int) -> bool {
    &&& 0 <= r < rules.len()
    &&& 0 <= j < rules[r].selectors@.len()
    &&& rules[r].selectors@[j]@.matches(node)
    &&& rules[r].raw(p) is Some
}

pub open spec fn offer_spec(rules: Seq<Rc<Style>>, r: int, j: int) -> Specificity {
    rules[r].selectors@[j]@.specificity()
}

/// Selector `j` among the first `k` of `style` matches `node`, and `style`
/// sets `p`.
pub open spec fn offered_in(style: Rc<Style>, node: SelectorView, p: Seq<char>, k: int, j: int) -> bool {
    0 <= j < k && j < style.selectors@.len() && style.selectors@[j]@.matches(node) && style.raw(p) is Some
}

proof fn lemma_rule_step(cur: Option<SelectedStyle>, style: Rc<Style>, node: SelectorView, p: Seq<char>, k: int)
    requires
        0 <= k <= style.selectors@.len(),
    ensures
        ({
            let r = rule_step(cur, style, node, p, k);
            &&& (r is None) == (cur is None && !exists|j: int| #[trigger] offered_in(style, node, p, k, j))
            &&& r is Some ==> (r == cur || (r->Some_0.style == style && exists|j: int|
                #[trigger] offered_in(style, node, p, k, j) && style.selectors@[j]@.specificity() == r->Some_0.specificity))
            &&& r is Some ==> forall|j: int| #[trigger] offered_in(style, node, p, k, j) ==> !style.selectors@[j]@.specificity().outranks(r->Some_0.specificity)
            &&& (r is Some && cur is Some) ==> !cur->Some_0.specificity.outranks(r->Some_0.specificity)
            &&& r != cur ==> (r is Some && r->Some_0.style == style && (cur is None || r->Some_0.specificity.outranks(cur->Some_0.specificity)))
        }),
    decreases k,
{
    if k > 0 {
        lemma_rule_step(cur, style, node, p, k - 1);
        let c = rule_step(cur, style, node, p, k - 1);
        let r = rule_step(cur, style, node, p, k);
        assert forall|j: int| #[trigger] offered_in(style, node, p, k, j) implies offered_in(style, node, p, k - 1, j) || j == k - 1 by {}
        assert forall|j: int| offered_in(style, node, p, k - 1, j) implies #[trigger] offered_in(style, node, p, k, j) by {}
        if r != c {
            assert(offered_in(style, node, p, k, k - 1));
        }
        if exists|j: int| #[trigger] offered_in(style, node, p, k - 1, j) {
            let j0 = choose|j: int| #[trigger] offered_in(style, node, p, k - 1, j);
            assert(offered_in(style, node, p, k, j0));
        }
        if r is Some && r != cur && r == c {
            let j0 = choose|j: int| #[trigger] offered_in(style, node, p, k - 1, j) && style.selectors@[j]@.specificity() == c->Some_0.specificity;
            assert(offered_in(style, node, p, k, j0));
        }
    }
}

/// The cascade keeps, for each property, the first rule whose matching
/// selectors reach the highest specificity: the choice exists exactly when
/// some matching selector's rule sets the property; no such selector
/// outranks the choice; the chosen rule has a matching selector of exactly
/// the chosen specificity; and every such selector of an earlier rule is
/// strictly outranked by it.
pub proof fn lemma_cascade_first_max(rules: Seq<Rc<Style>>, node: SelectorView, p: Seq<char>)
    ensures
        (cascade_choice(rules, node, p) is Some) == exists|r: int, j: int| #[trigger] offered(rules, node, p, r, j),
        cascade_choice(rules, node, p) matches Some(sel) ==> {
            &&& forall|r: int, j: int| #[trigger] offered(rules, node, p, r, j) ==> !offer_spec(rules, r, j).outranks(sel.specificity)
            &&& exists|r: int, j: int| {
                &&& #[trigger] offered(rules, node, p, r, j)
                &&& offer_spec(rules, r, j) == sel.specificity
                &&& sel.style == rules[r]
                &&& forall|r2: int, j2: int| #[trigger] offered(rules, node, p, r2, j2) && r2 < r ==> sel.specificity.outranks(offer_spec(rules, r2, j2))
            }
        },
    decreases rules.len(),
{
    if rules.len() > 0 {
        let front = rules.drop_last();
        let last = rules.last();
        let n = rules.len() - 1;
        lemma_cascade_first_max(front, node, p);
        let c = cascade_choice(front, node, p);
        let k = last.selectors@.len() as int;
        lemma_rule_step(c, last, node, p, k);
        let res = cascade_choice(rules, node, p);
        assert(res == rule_step(c, last, node, p, k));
        assert forall|r: int, j: int| #[trigger] offered(rules, node, p, r, j) && r < n implies offered(front, node, p, r, j) by {
            assert(front[r] == rules[r]);
        }
        assert forall|r: int, j: int| #[trigger] offered(front, node, p, r, j) implies offered(rules, node, p, r, j) && offer_spec(front, r, j) == offer_spec(rules, r, j) by {
            assert(front[r] == rules[r]);
        }
        assert forall|j: int| #[trigger] offered(rules, node, p, n, j) <==> offered_in(last, node, p, k, j) by {}
        if exists|r: int, j: int| #[trigger] offered(rules, node, p, r, j) {
            let (r0, j0) = choose|r: int, j: int| #[trigger] offered(rules, node, p, r, j);
            if r0 < n {
                assert(offered(front, node, p, r0, j0));
            } else {
                assert(offered_in(last, node, p, k, j0));
            }
        }
        if res is Some {
            let sel = res->Some_0;
            assert forall|r: int, j: int| #[trigger] offered(rules, node, p, r, j) implies !offer_spec(rules, r, j).outranks(sel.specificity) by {
                if r < n {
                    assert(offered(front, node, p, r, j));
                    assert(!offer_spec(front, r, j).outranks(c->Some_0.specificity));
                } else {
                    assert(offered_in(last, node, p, k, j));
                }
            }
            if res == c {
                let (r0, j0) = choose|r: int, j: int| {
                    &&& #[trigger] offered(front, node, p, r, j)
                    &&& offer_spec(front, r, j) == sel.specificity
                    &&& sel.style == front[r]
                    &&& forall|r2: int, j2: int| #[trigger] offered(front, node, p, r2, j2) && r2 < r ==> sel.specificity.outranks(offer_spec(front, r2, j2))
                };
                assert(offered(rules, node, p, r0, j0));
                assert(rules[r0] == front[r0]);
                assert forall|r2: int, j2: int| #[trigger] offered(rules, node, p, r2, j2) && r2 < r0 implies sel.specificity.outranks(offer_spec(rules, r2, j2)) by {
                    assert(offered(front, node, p, r2, j2));
                }
            } else {
                let j0 = choose|j: int| #[trigger] offered_in(last, node, p, k, j) && last.selectors@[j]@.specificity() == sel.specificity;
                assert(offered(rules, node, p, n, j0));
                assert forall|r2: int, j2: int| #[trigger] offered(rules, node, p, r2, j2) && r2 < n implies sel.specificity.outranks(offer_spec(rules, r2, j2)) by {
                    assert(offered(front, node, p, r2, j2));
                    assert(!offer_spec(front, r2, j2).outranks(c->Some_0.specificity));
                }
            }
        }
    }
}

} // verus!
