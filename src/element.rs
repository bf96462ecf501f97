use std::rc::Rc;
use vstd::prelude::*;
use crate::css::CssColor;
use crate::font::Font;
use crate::util::Rect;

verus! {

/// A positioned, sized box with children.
#[derive(Debug)]
pub struct Element {
    x: i32,
    y: i32,
    width: u32,
    height: u32,
    radius: u32,
    pub enabled: bool,
    pub parent: Option<Rc<Element>>,
    children: Vec<Rc<Element>>,
}

impl Element {
    pub closed spec fn spec_x(&self) -> i32 {
        self.x
    }

    pub closed spec fn spec_y(&self) -> i32 {
        self.y
    }

    pub closed spec fn spec_width(&self) -> u32 {
        self.width
    }

    pub closed spec fn spec_height(&self) -> u32 {
        self.height
    }

    pub closed spec fn spec_radius(&self) -> u32 {
        self.radius
    }

    pub closed spec fn spec_enabled(&self) -> bool {
        self.enabled
    }

    pub closed spec fn spec_parent(&self) -> Option<Rc<Element>> {
        self.parent
    }

    /// Everything but the children is the same in `self` and `o`.
    pub closed spec fn same_box(&self, o: &Element) -> bool {
        &&& self.x == o.x
        &&& self.y == o.y
        &&& self.width == o.width
        &&& self.height == o.height
        &&& self.radius == o.radius
        &&& self.enabled == o.enabled
        &&& self.parent == o.parent
    }

    pub closed spec fn spec_children(&self) -> Seq<Rc<Element>> {
        self.children@
    }

    /// An enabled element at the origin, of size zero, with no parent and no
    /// children.
    pub fn new() -> (r: Element)
        ensures
            r.spec_x() == 0 && r.spec_y() == 0,
            r.spec_width() == 0 && r.spec_height() == 0 && r.spec_radius() == 0,
            r.spec_enabled(),
            r.spec_parent() is None,
            r.spec_children().len() == 0,
    {
        Element { x: 0, y: 0, width: 0, height: 0, radius: 0, enabled: true, parent: None, children: Vec::new() }
    }

    pub fn get_x(&self) -> (r: i32)
        ensures
            r == self.spec_x(),
    {
        self.x
    }

    pub fn get_y(&self) -> (r: i32)
        ensures
            r == self.spec_y(),
    {
        self.y
    }

    pub fn get_width(&self) -> (r: u32)
        ensures
            r == self.spec_width(),
    {
        self.width
    }

    pub fn get_height(&self) -> (r: u32)
        ensures
            r == self.spec_height(),
    {
        self.height
    }

    pub fn get_radius(&self) -> (r: u32)
        ensures
            r == self.spec_radius(),
    {
        self.radius
    }

    /// The box inside the rounded corners: inset by the radius on each side.
    pub fn get_inner_rect(&self) -> (r: Rect)
        requires
            self.spec_x() + self.spec_radius() <= i32::MAX,
            self.spec_y() + self.spec_radius() <= i32::MAX,
            2 * self.spec_radius() <= self.spec_width(),
            2 * self.spec_radius() <= self.spec_height(),
        ensures
            r.x == self.spec_x() + self.spec_radius(),
            r.y == self.spec_y() + self.spec_radius(),
            r.w == self.spec_width() - 2 * self.spec_radius(),
            r.h == self.spec_height() - 2 * self.spec_radius(),
    {
        Rect {
            x: (self.x as i64 + self.radius as i64) as i32,
            y: (self.y as i64 + self.radius as i64) as i32,
            w: self.width - 2 * self.radius,
            h: self.height - 2 * self.radius,
        }
    }

    pub fn iter_children(&self) -> (r: std::slice::Iter<'_, Rc<Element>>) {
        self.children.iter()
    }

    pub fn get_children(&self) -> (r: Vec<Rc<Element>>)
        ensures
            r@ == self.spec_children(),
    {
        let mut r: Vec<Rc<Element>> = Vec::new();
        let mut i: usize = 0;
        while i < self.children.len()
            invariant
                i <= self.children@.len(),
                r@ == self.children@.subrange(0, i as int),
            decreases self.children@.len() - i,
        {
            r.push(Rc::clone(&self.children[i]));
            i += 1;
        }
        assert(r@ =~= self.children@);
        r
    }

    pub fn set_children(&mut self, children: Vec<Rc<Element>>)
        ensures
            final(self).spec_children() == children@,
            final(self).same_box(old(self)),
    {
        self.children = children;
    }

    pub fn add_child(&mut self, child: Rc<Element>)
        ensures
            final(self).spec_children() == old(self).spec_children().push(child),
            final(self).same_box(old(self)),
    {
        self.children.push(child);
    }

    pub fn add_children(&mut self, children: Vec<Rc<Element>>)
        ensures
            final(self).spec_children() == old(self).spec_children() + children@,
            final(self).same_box(old(self)),
    {
        let mut more = children;
        self.children.append(&mut more);
    }

    /// Removes every child that is the given child itself (the same
    /// allocation); the others keep their order.
    pub fn remove_child(&mut self, child: Rc<Element>)
        ensures
            final(self).same_box(old(self)),
            is_subsequence(final(self).spec_children(), old(self).spec_children()),
    {
        let mut kept: Vec<Rc<Element>> = Vec::new();
        let ghost mut picks: Seq<int> = Seq::empty();
        let mut i: usize = 0;
        while i < self.children.len()
            invariant
                i <= self.children@.len(),
                picks.len() == kept@.len(),
                forall|k: int| 0 <= k < picks.len() ==> 0 <= #[trigger] picks[k] < i && self.children@[picks[k]] == kept@[k],
                forall|k: int, l: int| 0 <= k < l < picks.len() ==> #[trigger] picks[k] < #[trigger] picks[l],
            decreases self.children@.len() - i,
        {
            if !same_element(&self.children[i], &child) {
                let c = Rc::clone(&self.children[i]);
                assert(self.children@[i as int] == c);
                kept.push(c);
                proof {
                    picks = picks.push(i as int);
                }
            }
            i += 1;
        }
        self.children = kept;
    }
}

/// `sub` is `whole` with some items left out, the rest in their order.
pub open spec fn is_subsequence<T>(sub: Seq<T>, whole: Seq<T>) -> bool {
    exists|picks: Seq<int>|
        picks.len() == sub.len() && (forall|k: int| 0 <= k < picks.len() ==> 0 <= #[trigger] picks[k] < whole.len() && whole[picks[k]] == sub[k])
            && (forall|k: int, l: int| 0 <= k < l < picks.len() ==> #[trigger] picks[k] < #[trigger] picks[l])
}

/// Relies on `Rc::ptr_eq`: whether two handles point to the same element;
/// handles to the same element see the same value.
#[verifier::external_body]
fn same_element(a: &Rc<Element>, b: &Rc<Element>) -> (r: bool)
    ensures
        r ==> *a == *b,
{
    Rc::ptr_eq(a, b)
}

/// An element with a background colour.
pub struct BackgroundElement {
    pub element: Element,
    pub background_color: CssColor,
}

/// An element showing text in a font.
pub struct TextElement<'a> {
    pub element: Element,
    pub text: String,
    pub font: Rc<Font<'a>>,
    pub font_size: u32,
    pub font_color: CssColor,
}

/// Options for opening a window onto a page.
#[derive(Debug, Clone)]
pub struct WindowCreationOptions {
    pub title: String,
    pub width: u32,
    pub height: u32,
}

/// Why a window could not be opened.
#[derive(Debug)]
pub struct WindowCreationError {
    pub message: String,
}

} // verus!
