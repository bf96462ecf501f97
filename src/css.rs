use std::rc::Rc;
use vstd::prelude::*;
use vstd::std_specs::cmp::PartialOrdSpec;
use crate::text::{push_char, same_text, ends_with_text, slice_text};

verus! {

/// Error raised while reading a style sheet or a style value.
#[derive(Debug, PartialEq, Clone)]
pub struct CssParseError {
    pub css: String,
    pub message: String,
}

/// Priority weight of a selector: (id count, class count, tag count),
/// compared lexicographically with the id count first.
#[derive(Clone, Copy, Debug, PartialEq, Eq, Structural)]
pub struct Specificity {
    pub num_id: u32,
    pub num_class: u32,
    pub num_tag: u32,
}

impl Specificity {
    /// Lexicographic "strictly greater" on (id, class, tag).
    pub open spec fn outranks(self, other: Specificity) -> bool {
        self.num_id > other.num_id || (self.num_id == other.num_id && (self.num_class
            > other.num_class || (self.num_class == other.num_class && self.num_tag
            > other.num_tag)))
    }

    pub fn new(num_id: u32, num_class: u32, num_tag: u32) -> (r: Specificity)
        ensures
            r == (Specificity { num_id, num_class, num_tag }),
    {
        Specificity { num_id, num_class, num_tag }
    }

    pub fn add_id(&mut self)
        requires
            old(self).num_id < u32::MAX,
        ensures
            *final(self) == (Specificity { num_id: (old(self).num_id + 1) as u32, ..*old(self) }),
    {
        self.num_id = self.num_id + 1;
    }

    pub fn add_class(&mut self)
        requires
            old(self).num_class < u32::MAX,
        ensures
            *final(self) == (Specificity {
                num_class: (old(self).num_class + 1) as u32,
                ..*old(self)
            }),
    {
        self.num_class = self.num_class + 1;
    }

    pub fn add_classes(&mut self, n: u32)
        requires
            old(self).num_class + n <= u32::MAX,
        ensures
            *final(self) == (Specificity {
                num_class: (old(self).num_class + n) as u32,
                ..*old(self)
            }),
    {
        self.num_class = self.num_class + n;
    }

    pub fn add_tag(&mut self)
        requires
            old(self).num_tag < u32::MAX,
        ensures
            *final(self) == (Specificity { num_tag: (old(self).num_tag + 1) as u32, ..*old(self) }),
    {
        self.num_tag = self.num_tag + 1;
    }

    /// Component-wise sum of two specificities.
    pub fn add(&self, rhs: &Specificity) -> (r: Specificity)
        requires
            self.num_id + rhs.num_id <= u32::MAX,
            self.num_class + rhs.num_class <= u32::MAX,
            self.num_tag + rhs.num_tag <= u32::MAX,
        ensures
            r.num_id == self.num_id + rhs.num_id,
            r.num_class == self.num_class + rhs.num_class,
            r.num_tag == self.num_tag + rhs.num_tag,
    {
        Specificity {
            num_id: self.num_id + rhs.num_id,
            num_class: self.num_class + rhs.num_class,
            num_tag: self.num_tag + rhs.num_tag,
        }
    }

    /// Whether `self` is strictly higher than `other`.
    pub fn greater_than(&self, other: &Specificity) -> (r: bool)
        ensures
            r == self.outranks(*other),
    {
        if self.num_id != other.num_id {
            self.num_id > other.num_id
        } else if self.num_class != other.num_class {
            self.num_class > other.num_class
        } else {
            self.num_tag > other.num_tag
        }
    }
}

impl PartialOrd for Specificity {
    fn partial_cmp(&self, other: &Specificity) -> (r: Option<core::cmp::Ordering>) {
        if self.num_id != other.num_id {
            if self.num_id < other.num_id {
                Some(core::cmp::Ordering::Less)
            } else {
                Some(core::cmp::Ordering::Greater)
            }
        } else if self.num_class != other.num_class {
            if self.num_class < other.num_class {
                Some(core::cmp::Ordering::Less)
            } else {
                Some(core::cmp::Ordering::Greater)
            }
        } else if self.num_tag != other.num_tag {
            if self.num_tag < other.num_tag {
                Some(core::cmp::Ordering::Less)
            } else {
                Some(core::cmp::Ordering::Greater)
            }
        } else {
            Some(core::cmp::Ordering::Equal)
        }
    }
}

impl vstd::std_specs::cmp::PartialOrdSpecImpl for Specificity {
    open spec fn obeys_partial_cmp_spec() -> bool {
        true
    }

    open spec fn partial_cmp_spec(&self, other: &Specificity) -> Option<core::cmp::Ordering> {
        if self.outranks(*other) {
            Some(core::cmp::Ordering::Greater)
        } else if other.outranks(*self) {
            Some(core::cmp::Ordering::Less)
        } else {
            Some(core::cmp::Ordering::Equal)
        }
    }
}

/// What a selector or a node's own description holds, as plain sequences.
pub struct SelectorView {
    pub tag: Option<Seq<char>>,
    pub classes: Seq<Seq<char>>,
    pub id: Option<Seq<char>>,
}

/// A simple selector: optional tag name, a list of class names, optional id.
#[derive(Clone, Debug, PartialEq)]
pub struct Selector {
    pub tag_name: Option<String>,
    pub class_list: Vec<String>,
    pub id: Option<String>,
}

pub open spec fn opt_view(o: Option<String>) -> Option<Seq<char>> {
    match o {
        Some(s) => Some(s@),
        None => None,
    }
}

/// The classes of a `class` attribute: the pieces between spaces, empty
/// pieces left out. `cur` is the piece being read.
pub open spec fn split_words(s: Seq<char>) -> (Seq<Seq<char>>, Seq<char>)
    decreases s.len(),
{
    if s.len() == 0 {
        (Seq::empty(), Seq::empty())
    } else {
        let (done, cur) = split_words(s.drop_last());
        if s.last() == ' ' {
            if cur.len() > 0 {
                (done.push(cur), Seq::empty())
            } else {
                (done, cur)
            }
        } else {
            (done, cur.push(s.last()))
        }
    }
}

pub open spec fn class_words(s: Seq<char>) -> Seq<Seq<char>> {
    let (done, cur) = split_words(s);
    if cur.len() > 0 {
        done.push(cur)
    } else {
        done
    }
}

/// The text form of a class list: each class preceded by a dot.
pub open spec fn classes_text(c: Seq<Seq<char>>) -> Seq<char>
    decreases c.len(),
{
    if c.len() == 0 {
        Seq::empty()
    } else {
        classes_text(c.drop_last()) + "."@ + c.last()
    }
}

impl View for Selector {
    type V = SelectorView;

    open spec fn view(&self) -> SelectorView {
        SelectorView {
            tag: opt_view(self.tag_name),
            classes: self.class_list@.map_values(|c: String| c@),
            id: opt_view(self.id),
        }
    }
}

impl SelectorView {
    /// Directional match: every part present in the selector is present in
    /// the node; the node's extra classes never disqualify it.
    pub open spec fn matches(self, node: SelectorView) -> bool {
        &&& (self.tag is None || self.tag == node.tag)
        &&& (self.id is None || self.id == node.id)
        &&& forall|i: int| 0 <= i < self.classes.len() ==> node.classes.contains(#[trigger] self.classes[i])
    }

    pub open spec fn specificity(self) -> Specificity {
        Specificity {
            num_id: if self.id is Some { 1 } else { 0 },
            num_class: self.classes.len() as u32,
            num_tag: if self.tag is Some { 1 } else { 0 },
        }
    }

    pub open spec fn text(self) -> Seq<char> {
        (match self.tag {
            Some(t) => t,
            None => Seq::empty(),
        }) + classes_text(self.classes) + (match self.id {
            Some(i) => "#"@ + i,
            None => Seq::empty(),
        })
    }
}

pub fn copy_opt(o: &Option<String>) -> (r: Option<String>)
    ensures
        r == *o,
{
    match o {
        Some(s) => Some(s.clone()),
        None => None,
    }
}

pub fn copy_strings(v: &Vec<String>) -> (r: Vec<String>)
    ensures
        r@ == v@,
{
    let mut r: Vec<String> = Vec::new();
    let mut i: usize = 0;
    while i < v.len()
        invariant
            i <= v.len(),
            r@ == v@.subrange(0, i as int),
        decreases v.len() - i,
    {
        r.push(v[i].clone());
        i += 1;
    }
    assert(r@ =~= v@);
    r
}

fn opt_text_eq(a: &Option<String>, b: &Option<String>) -> (r: bool)
    ensures
        r == (opt_view(*a) == opt_view(*b)),
{
    match a {
        Some(x) => match b {
            Some(y) => {
                let r = same_text(x.as_str(), y.as_str());
                proof {
                    if opt_view(*a) == opt_view(*b) {
                        assert(x@ == y@);
                    }
                }
                r
            },
            None => false,
        },
        None => b.is_none(),
    }
}

impl Selector {
    /// Creates a new selector with the given tag name, class list, and id.
    pub fn new(tag_name: Option<String>, class_list: Vec<String>, id: Option<String>) -> (r: Selector)
        ensures
            r == (Selector { tag_name, class_list, id }),
    {
        Selector { tag_name, class_list, id }
    }

    /// A selector equal to this one.
    pub fn duplicate(&self) -> (r: Selector)
        ensures
            r@ == self@,
    {
        Selector {
            tag_name: copy_opt(&self.tag_name),
            class_list: copy_strings(&self.class_list),
            id: copy_opt(&self.id),
        }
    }

    /// The selector describing a node with the given tag name, `class`
    /// attribute (classes separated by spaces) and id.
    pub fn from_attributes(tag_name: Option<String>, class_attr: &str, id: Option<String>) -> (r: Selector)
        ensures
            r@.tag == opt_view(tag_name),
            r@.classes == class_words(class_attr@),
            r@.id == opt_view(id),
    {
        let n = class_attr.unicode_len();
        let mut classes: Vec<String> = Vec::new();
        let mut cur = String::new();
        let mut i: usize = 0;
        while i < n
            invariant
                n == class_attr@.len(),
                i <= n,
                (classes@.map_values(|c: String| c@), cur@) == split_words(class_attr@.subrange(0, i as int)),
            decreases n - i,
        {
            let c = class_attr.get_char(i);
            proof {
                assert(class_attr@.subrange(0, i + 1).drop_last() =~= class_attr@.subrange(0, i as int));
            }
            if c == ' ' {
                if cur.unicode_len() > 0 {
                    let ghost before = classes@;
                    classes.push(cur);
                    proof {
                        assert(classes@.map_values(|c: String| c@) =~= before.map_values(|c: String| c@).push(cur@));
                    }
                    cur = String::new();
                }
            } else {
                push_char(&mut cur, c);
            }
            i += 1;
        }
        assert(class_attr@.subrange(0, n as int) =~= class_attr@);
        if cur.unicode_len() > 0 {
            let ghost before = classes@;
            classes.push(cur);
            proof {
                assert(classes@.map_values(|c: String| c@) =~= before.map_values(|c: String| c@).push(cur@));
            }
        }
        let r = Selector { tag_name, class_list: classes, id };
        assert(r@.classes == class_words(class_attr@));
        r
    }

    /// The specificity of this selector: one id, its classes, one tag.
    pub fn specificity(&self) -> (r: Specificity)
        requires
            self.class_list.len() <= u32::MAX,
        ensures
            r == self@.specificity(),
    {
        let mut specificity = Specificity::new(0, 0, 0);
        if self.id.is_some() {
            specificity.add_id();
        }
        specificity.add_classes(self.class_list.len() as u32);
        if self.tag_name.is_some() {
            specificity.add_tag();
        }
        specificity
    }

    /// Whether this selector matches a node described by `node`.
    pub fn matches(&self, node: &Selector) -> (r: bool)
        ensures
            r == self@.matches(node@),
    {
        if self.tag_name.is_some() && !opt_text_eq(&self.tag_name, &node.tag_name) {
            return false;
        }
        if self.id.is_some() && !opt_text_eq(&self.id, &node.id) {
            return false;
        }
        let ghost sc = self@.classes;
        let ghost nc = node@.classes;
        let mut i: usize = 0;
        while i < self.class_list.len()
            invariant
                i <= self.class_list.len(),
                sc == self@.classes,
                nc == node@.classes,
                forall|k: int| 0 <= k < i ==> nc.contains(#[trigger] sc[k]),
            decreases self.class_list.len() - i,
        {
            let mut found = false;
            let mut j: usize = 0;
            while j < node.class_list.len()
                invariant
                    i < self.class_list.len(),
                    j <= node.class_list.len(),
                    sc == self@.classes,
                    nc == node@.classes,
                    found ==> nc.contains(sc[i as int]),
                    !found ==> forall|k: int| 0 <= k < j ==> nc[k] != sc[i as int],
                decreases node.class_list.len() - j,
            {
                if !found && node.class_list[j] == self.class_list[i] {
                    found = true;
                    assert(nc[j as int] == sc[i as int]);
                }
                j += 1;
            }
            if !found {
                assert(!nc.contains(sc[i as int]));
                return false;
            }
            i += 1;
        }
        true
    }

    /// The text form of this selector: tag, then `.class` for each class,
    /// then `#id`.
    pub fn to_string(&self) -> (r: String)
        ensures
            r@ == self@.text(),
    {
        let mut out = String::new();
        if let Some(t) = &self.tag_name {
            out.append(t.as_str());
        }
        let ghost start = out@;
        let mut i: usize = 0;
        while i < self.class_list.len()
            invariant
                i <= self.class_list.len(),
                out@ == start + classes_text(self@.classes.subrange(0, i as int)),
            decreases self.class_list.len() - i,
        {
            out.append(".");
            out.append(self.class_list[i].as_str());
            proof {
                let s = self@.classes.subrange(0, i + 1);
                assert(s.drop_last() =~= self@.classes.subrange(0, i as int));
            }
            i += 1;
        }
        assert(self@.classes.subrange(0, self.class_list.len() as int) =~= self@.classes);
        if let Some(id) = &self.id {
            out.append("#");
            out.append(id.as_str());
        }
        out
    }
}

/// Unit of a style value.
#[derive(Clone, Copy, Debug, PartialEq, Eq, Structural)]
pub enum Unit {
    Px,
    Pt,
    Em,
    Percent,
    Vw,
    Vh,
    Vmin,
    Vmax,
    Cm,
    Mm,
    Q,
    In,
    Pc,
    Fr,
}

impl Unit {
    /// The keyword naming this value.
    pub open spec fn name(self) -> Seq<char> {
        match self {
            Unit::Px => "px"@,
            Unit::Pt => "pt"@,
            Unit::Em => "em"@,
            Unit::Percent => "%"@,
            Unit::Vw => "vw"@,
            Unit::Vh => "vh"@,
            Unit::Vmin => "vmin"@,
            Unit::Vmax => "vmax"@,
            Unit::Cm => "cm"@,
            Unit::Mm => "mm"@,
            Unit::Q => "Q"@,
            Unit::In => "in"@,
            Unit::Pc => "pc"@,
            Unit::Fr => "fr"@,
        }
    }

    pub fn as_text(&self) -> (r: &'static str)
        ensures
            r@ == self.name(),
    {
        match self {
            Unit::Px => "px",
            Unit::Pt => "pt",
            Unit::Em => "em",
            Unit::Percent => "%",
            Unit::Vw => "vw",
            Unit::Vh => "vh",
            Unit::Vmin => "vmin",
            Unit::Vmax => "vmax",
            Unit::Cm => "cm",
            Unit::Mm => "mm",
            Unit::Q => "Q",
            Unit::In => "in",
            Unit::Pc => "pc",
            Unit::Fr => "fr",
        }
    }

    pub fn to_string(&self) -> (r: String)
        ensures
            r@ == self.name(),
    {
        String::from_str(self.as_text())
    }

    /// The value named by `s`; an error naming `s` when no value has that
    /// keyword.
    pub fn from_str(s: &str) -> (r: Result<Unit, CssParseError>)
        ensures
            match r {
                Ok(v) => v.name() == s@,
                Err(e) => e.css@ == s@ && forall|v: Unit| #[trigger] v.name() != s@,
            },
    {
        if same_text(s, "px") {
            return Ok(Unit::Px);
        }
        if same_text(s, "pt") {
            return Ok(Unit::Pt);
        }
        if same_text(s, "em") {
            return Ok(Unit::Em);
        }
        if same_text(s, "%") {
            return Ok(Unit::Percent);
        }
        if same_text(s, "vw") {
            return Ok(Unit::Vw);
        }
        if same_text(s, "vh") {
            return Ok(Unit::Vh);
        }
        if same_text(s, "vmin") {
            return Ok(Unit::Vmin);
        }
        if same_text(s, "vmax") {
            return Ok(Unit::Vmax);
        }
        if same_text(s, "cm") {
            return Ok(Unit::Cm);
        }
        if same_text(s, "mm") {
            return Ok(Unit::Mm);
        }
        if same_text(s, "Q") {
            return Ok(Unit::Q);
        }
        if same_text(s, "in") {
            return Ok(Unit::In);
        }
        if same_text(s, "pc") {
            return Ok(Unit::Pc);
        }
        if same_text(s, "fr") {
            return Ok(Unit::Fr);
        }
        proof {
            assert forall|v: Unit| #[trigger] v.name() != s@ by {
                match v {
                Unit::Px => {},
                Unit::Pt => {},
                Unit::Em => {},
                Unit::Percent => {},
                Unit::Vw => {},
                Unit::Vh => {},
                Unit::Vmin => {},
                Unit::Vmax => {},
                Unit::Cm => {},
                Unit::Mm => {},
                Unit::Q => {},
                Unit::In => {},
                Unit::Pc => {},
                Unit::Fr => {},
                }
            }
        }
        Err(CssParseError { css: String::from_str(s), message: String::from_str("unknown unit") })
    }
}

/// Horizontal alignment of text.
#[derive(Clone, Copy, Debug, PartialEq, Eq, Structural)]
pub enum TextAlign {
    Left,
    Right,
    Center,
}

impl TextAlign {
    /// The keyword naming this value.
    pub open spec fn name(self) -> Seq<char> {
        match self {
            TextAlign::Left => "left"@,
            TextAlign::Right => "right"@,
            TextAlign::Center => "center"@,
        }
    }

    pub fn as_text(&self) -> (r: &'static str)
        ensures
            r@ == self.name(),
    {
        match self {
            TextAlign::Left => "left",
            TextAlign::Right => "right",
            TextAlign::Center => "center",
        }
    }

    pub fn to_string(&self) -> (r: String)
        ensures
            r@ == self.name(),
    {
        String::from_str(self.as_text())
    }

    /// The value named by `s`; an error naming `s` when no value has that
    /// keyword.
    pub fn from_str(s: &str) -> (r: Result<TextAlign, CssParseError>)
        ensures
            match r {
                Ok(v) => v.name() == s@,
                Err(e) => e.css@ == s@ && forall|v: TextAlign| #[trigger] v.name() != s@,
            },
    {
        if same_text(s, "left") {
            return Ok(TextAlign::Left);
        }
        if same_text(s, "right") {
            return Ok(TextAlign::Right);
        }
        if same_text(s, "center") {
            return Ok(TextAlign::Center);
        }
        proof {
            assert forall|v: TextAlign| #[trigger] v.name() != s@ by {
                match v {
                TextAlign::Left => {},
                TextAlign::Right => {},
                TextAlign::Center => {},
                }
            }
        }
        Err(CssParseError { css: String::from_str(s), message: String::from_str("invalid or unsupported enum value") })
    }
}

/// Which box a width or height refers to.
#[derive(Clone, Copy, Debug, PartialEq, Eq, Structural)]
pub enum BoxSizing {
    ContentBox,
    BorderBox,
}

impl BoxSizing {
    /// The keyword naming this value.
    pub open spec fn name(self) -> Seq<char> {
        match self {
            BoxSizing::ContentBox => "content-box"@,
            BoxSizing::BorderBox => "border-box"@,
        }
    }

    pub fn as_text(&self) -> (r: &'static str)
        ensures
            r@ == self.name(),
    {
        match self {
            BoxSizing::ContentBox => "content-box",
            BoxSizing::BorderBox => "border-box",
        }
    }

    pub fn to_string(&self) -> (r: String)
        ensures
            r@ == self.name(),
    {
        String::from_str(self.as_text())
    }

    /// The value named by `s`; an error naming `s` when no value has that
    /// keyword.
    pub fn from_str(s: &str) -> (r: Result<BoxSizing, CssParseError>)
        ensures
            match r {
                Ok(v) => v.name() == s@,
                Err(e) => e.css@ == s@ && forall|v: BoxSizing| #[trigger] v.name() != s@,
            },
    {
        if same_text(s, "content-box") {
            return Ok(BoxSizing::ContentBox);
        }
        if same_text(s, "border-box") {
            return Ok(BoxSizing::BorderBox);
        }
        proof {
            assert forall|v: BoxSizing| #[trigger] v.name() != s@ by {
                match v {
                BoxSizing::ContentBox => {},
                BoxSizing::BorderBox => {},
                }
            }
        }
        Err(CssParseError { css: String::from_str(s), message: String::from_str("invalid or unsupported enum value") })
    }
}

/// How a node takes part in document flow.
#[derive(Clone, Copy, Debug, PartialEq, Eq, Structural)]
pub enum Display {
    Block,
    InlineBlock,
    Inline,
    Flex,
    Grid,
    Hidden,
}

impl Display {
    /// The keyword naming this value.
    pub open spec fn name(self) -> Seq<char> {
        match self {
            Display::Block => "block"@,
            Display::InlineBlock => "inline-block"@,
            Display::Inline => "inline"@,
            Display::Flex => "flex"@,
            Display::Grid => "grid"@,
            Display::Hidden => "none"@,
        }
    }

    pub fn as_text(&self) -> (r: &'static str)
        ensures
            r@ == self.name(),
    {
        match self {
            Display::Block => "block",
            Display::InlineBlock => "inline-block",
            Display::Inline => "inline",
            Display::Flex => "flex",
            Display::Grid => "grid",
            Display::Hidden => "none",
        }
    }

    pub fn to_string(&self) -> (r: String)
        ensures
            r@ == self.name(),
    {
        String::from_str(self.as_text())
    }

    /// The value named by `s`; an error naming `s` when no value has that
    /// keyword.
    pub fn from_str(s: &str) -> (r: Result<Display, CssParseError>)
        ensures
            match r {
                Ok(v) => v.name() == s@,
                Err(e) => e.css@ == s@ && forall|v: Display| #[trigger] v.name() != s@,
            },
    {
        if same_text(s, "block") {
            return Ok(Display::Block);
        }
        if same_text(s, "inline-block") {
            return Ok(Display::InlineBlock);
        }
        if same_text(s, "inline") {
            return Ok(Display::Inline);
        }
        if same_text(s, "flex") {
            return Ok(Display::Flex);
        }
        if same_text(s, "grid") {
            return Ok(Display::Grid);
        }
        if same_text(s, "none") {
            return Ok(Display::Hidden);
        }
        proof {
            assert forall|v: Display| #[trigger] v.name() != s@ by {
                match v {
                Display::Block => {},
                Display::InlineBlock => {},
                Display::Inline => {},
                Display::Flex => {},
                Display::Grid => {},
                Display::Hidden => {},
                }
            }
        }
        Err(CssParseError { css: String::from_str(s), message: String::from_str("invalid or unsupported enum value") })
    }
}

/// Main axis of a flex container.
#[derive(Clone, Copy, Debug, PartialEq, Eq, Structural)]
pub enum FlexDirection {
    Row,
    RowReverse,
    Column,
    ColumnReverse,
}

impl FlexDirection {
    /// The keyword naming this value.
    pub open spec fn name(self) -> Seq<char> {
        match self {
            FlexDirection::Row => "row"@,
            FlexDirection::RowReverse => "row-reverse"@,
            FlexDirection::Column => "column"@,
            FlexDirection::ColumnReverse => "column-reverse"@,
        }
    }

    pub fn as_text(&self) -> (r: &'static str)
        ensures
            r@ == self.name(),
    {
        match self {
            FlexDirection::Row => "row",
            FlexDirection::RowReverse => "row-reverse",
            FlexDirection::Column => "column",
            FlexDirection::ColumnReverse => "column-reverse",
        }
    }

    pub fn to_string(&self) -> (r: String)
        ensures
            r@ == self.name(),
    {
        String::from_str(self.as_text())
    }

    /// The value named by `s`; an error naming `s` when no value has that
    /// keyword.
    pub fn from_str(s: &str) -> (r: Result<FlexDirection, CssParseError>)
        ensures
            match r {
                Ok(v) => v.name() == s@,
                Err(e) => e.css@ == s@ && forall|v: FlexDirection| #[trigger] v.name() != s@,
            },
    {
        if same_text(s, "row") {
            return Ok(FlexDirection::Row);
        }
        if same_text(s, "row-reverse") {
            return Ok(FlexDirection::RowReverse);
        }
        if same_text(s, "column") {
            return Ok(FlexDirection::Column);
        }
        if same_text(s, "column-reverse") {
            return Ok(FlexDirection::ColumnReverse);
        }
        proof {
            assert forall|v: FlexDirection| #[trigger] v.name() != s@ by {
                match v {
                FlexDirection::Row => {},
                FlexDirection::RowReverse => {},
                FlexDirection::Column => {},
                FlexDirection::ColumnReverse => {},
                }
            }
        }
        Err(CssParseError { css: String::from_str(s), message: String::from_str("invalid or unsupported enum value") })
    }
}

/// The units in the order in which a value's suffix is tried.
pub open spec fn unit_order() -> Seq<Unit> {
    seq![Unit::Px, Unit::Pt, Unit::Em, Unit::Percent, Unit::Vw, Unit::Vh, Unit::Vmin, Unit::Vmax, Unit::Cm, Unit::Mm, Unit::Q, Unit::In, Unit::Pc, Unit::Fr]
}

impl Unit {
    pub fn all() -> (r: Vec<Unit>)
        ensures
            r@ == unit_order(),
    {
        let r = vec![Unit::Px, Unit::Pt, Unit::Em, Unit::Percent, Unit::Vw, Unit::Vh, Unit::Vmin, Unit::Vmax, Unit::Cm, Unit::Mm, Unit::Q, Unit::In, Unit::Pc, Unit::Fr];
        assert(r@ =~= unit_order());
        r
    }
}

/// Bound on a number's digits read as one integer.
pub const MANTISSA_LIMIT: i64 = 1000000000000000000;

/// Bound on the power of ten below a number's digits.
pub const DENOMINATOR_LIMIT: i64 = 100000000000000000;

/// A decimal value, `mantissa / den`, with `den` a power of ten.
#[derive(Clone, Copy, Debug, PartialEq, Eq, Structural)]
pub struct Number {
    pub mantissa: i64,
    pub den: i64,
}

/// State of reading the digits of a number from left to right.
pub struct DigitScan {
    pub mantissa: int,
    pub den: int,
    pub digits: nat,
    pub dot: bool,
    pub ok: bool,
}

pub open spec fn is_digit(c: char) -> bool {
    '0' <= c && c <= '9'
}

pub open spec fn digit_value(c: char) -> int {
    c as int - '0' as int
}

/// One character of a number: a digit extends the value (a digit after the
/// point also multiplies the denominator by ten), one point is allowed, and
/// anything else, or a value too large to hold, ends the number as invalid.
pub open spec fn scan_step(st: DigitScan, c: char) -> DigitScan {
    if !st.ok {
        st
    } else if is_digit(c) {
        let m = st.mantissa * 10 + digit_value(c);
        if m >= MANTISSA_LIMIT || (st.dot && st.den * 10 > DENOMINATOR_LIMIT) {
            DigitScan { ok: false, ..st }
        } else {
            DigitScan {
                mantissa: m,
                den: if st.dot { st.den * 10 } else { st.den },
                digits: st.digits + 1,
                ..st
            }
        }
    } else if c == '.' && !st.dot {
        DigitScan { dot: true, ..st }
    } else {
        DigitScan { ok: false, ..st }
    }
}

pub open spec fn scan_digits(s: Seq<char>) -> DigitScan
    decreases s.len(),
{
    if s.len() == 0 {
        DigitScan { mantissa: 0, den: 1, digits: 0, dot: false, ok: true }
    } else {
        scan_step(scan_digits(s.drop_last()), s.last())
    }
}

pub open spec fn has_sign(s: Seq<char>) -> bool {
    s.len() > 0 && (s[0] == '-' || s[0] == '+')
}

/// The number written in `s`: an optional sign, then digits with at most one
/// decimal point, at least one digit.
pub open spec fn parse_number(s: Seq<char>) -> Option<Number> {
    let body = if has_sign(s) { s.drop_first() } else { s };
    let st = scan_digits(body);
    if st.ok && st.digits > 0 {
        Some(Number {
            mantissa: (if s.len() > 0 && s[0] == '-' { -st.mantissa } else { st.mantissa }) as i64,
            den: st.den as i64,
        })
    } else {
        None
    }
}

/// Division rounding toward zero, for a positive divisor.
pub open spec fn div_toward_zero(a: int, b: int) -> int {
    if a >= 0 {
        a / b
    } else {
        -((-a) / b)
    }
}

/// The nearest `i32` to `v`.
pub open spec fn clamp_i32(v: int) -> i32 {
    if v < i32::MIN {
        i32::MIN
    } else if v > i32::MAX {
        i32::MAX
    } else {
        v as i32
    }
}

pub fn clamp_to_i32(v: i128) -> (r: i32)
    ensures
        r == clamp_i32(v as int),
{
    if v < i32::MIN as i128 {
        i32::MIN
    } else if v > i32::MAX as i128 {
        i32::MAX
    } else {
        v as i32
    }
}

/// Bound on the factors a number is scaled by.
pub const FACTOR_LIMIT: i64 = 1099511627776;

impl Number {
    pub open spec fn wf(self) -> bool {
        &&& -MANTISSA_LIMIT < self.mantissa < MANTISSA_LIMIT
        &&& 1 <= self.den <= DENOMINATOR_LIMIT
    }

    /// `self * num / den` rounded toward zero, as the nearest `i32`.
    pub open spec fn scaled(self, num: int, den: int) -> i32 {
        clamp_i32(div_toward_zero(self.mantissa * num, self.den * den))
    }

    pub fn from_int(v: i32) -> (r: Number)
        ensures
            r.wf(),
            r.mantissa == v,
            r.den == 1,
    {
        Number { mantissa: v as i64, den: 1 }
    }

    /// Reads a number written as an optional sign, then digits with at most
    /// one decimal point.
    pub fn parse(s: &str) -> (r: Option<Number>)
        ensures
            r == parse_number(s@),
            r matches Some(n) ==> n.wf(),
    {
        let n = s.unicode_len();
        let mut start: usize = 0;
        let mut neg = false;
        if n > 0 {
            let c0 = s.get_char(0);
            if c0 == '-' || c0 == '+' {
                start = 1;
                neg = c0 == '-';
            }
        }
        let ghost body = if has_sign(s@) { s@.drop_first() } else { s@ };
        proof {
            if has_sign(s@) {
                assert(body =~= s@.subrange(1, n as int));
            } else {
                assert(body =~= s@.subrange(0, n as int));
            }
        }
        let mut mantissa: i64 = 0;
        let mut den: i64 = 1;
        let mut digits: usize = 0;
        let mut dot = false;
        let mut ok = true;
        let mut i: usize = start;
        assert(s@.subrange(start as int, start as int) =~= Seq::<char>::empty());
        while i < n
            invariant
                n == s@.len(),
                start <= i <= n,
                body == s@.subrange(start as int, n as int),
                digits <= i,
                ({
                    let st = scan_digits(s@.subrange(start as int, i as int));
                    st.mantissa == mantissa && st.den == den && st.digits == digits && st.dot
                        == dot && st.ok == ok
                }),
                0 <= mantissa < MANTISSA_LIMIT,
                1 <= den <= DENOMINATOR_LIMIT,
            decreases n - i,
        {
            let c = s.get_char(i);
            proof {
                assert(s@.subrange(start as int, i + 1).drop_last() =~= s@.subrange(start as int, i as int));
            }
            if ok {
                if '0' <= c && c <= '9' {
                    let d = (c as u32 - '0' as u32) as i128;
                    let m: i128 = mantissa as i128 * 10 + d;
                    if m >= MANTISSA_LIMIT as i128 || (dot && den as i128 * 10 > DENOMINATOR_LIMIT as i128) {
                        ok = false;
                    } else {
                        mantissa = m as i64;
                        if dot {
                            den = den * 10;
                        }
                        digits = digits + 1;
                    }
                } else if c == '.' && !dot {
                    dot = true;
                } else {
                    ok = false;
                }
            }
            i += 1;
        }
        if ok && digits > 0 {
            Some(Number { mantissa: if neg { -mantissa } else { mantissa }, den })
        } else {
            None
        }
    }

    /// `self * num / den` rounded toward zero, as the nearest `i32`.
    pub fn scale(&self, num: i64, den: i64) -> (r: i32)
        requires
            self.wf(),
            -FACTOR_LIMIT <= num <= FACTOR_LIMIT,
            1 <= den <= 1000,
        ensures
            r == self.scaled(num as int, den as int),
    {
        proof {
            assert(-MANTISSA_LIMIT * FACTOR_LIMIT <= self.mantissa * num <= MANTISSA_LIMIT * FACTOR_LIMIT) by (nonlinear_arith)
                requires
                    -MANTISSA_LIMIT < self.mantissa < MANTISSA_LIMIT,
                    -FACTOR_LIMIT <= num <= FACTOR_LIMIT;
            assert(1 <= self.den * den <= DENOMINATOR_LIMIT * 1000) by (nonlinear_arith)
                requires
                    1 <= self.den <= DENOMINATOR_LIMIT,
                    1 <= den <= 1000;
        }
        let a: i128 = self.mantissa as i128 * num as i128;
        let b: i128 = self.den as i128 * den as i128;
        let q: i128 = if a >= 0 {
            a / b
        } else {
            -((-a) / b)
        };
        clamp_to_i32(q)
    }
}

/// The value under key `k` in a list of (key, value) pairs: the first pair
/// with that key.
pub open spec fn lookup<V>(s: Seq<(Seq<char>, V)>, k: Seq<char>) -> Option<V>
    decreases s.len(),
{
    if s.len() == 0 {
        None
    } else if s[0].0 == k {
        Some(s[0].1)
    } else {
        lookup(s.drop_first(), k)
    }
}

pub proof fn lemma_lookup_skip<V>(s: Seq<(Seq<char>, V)>, i: int, k: Seq<char>)
    requires
        0 <= i < s.len(),
        s[i].0 != k,
    ensures
        lookup(s.subrange(i, s.len() as int), k) == lookup(s.subrange(i + 1, s.len() as int), k),
{
    assert(s.subrange(i, s.len() as int).drop_first() =~= s.subrange(i + 1, s.len() as int));
}

pub proof fn lemma_lookup_push<V>(s: Seq<(Seq<char>, V)>, p: (Seq<char>, V), k: Seq<char>)
    ensures
        lookup(s.push(p), k) == (if lookup(s, k) is Some {
            lookup(s, k)
        } else if p.0 == k {
            Some(p.1)
        } else {
            None
        }),
    decreases s.len(),
{
    if s.len() > 0 {
        assert(s.push(p).drop_first() =~= s.drop_first().push(p));
        assert(s.push(p)[0] == s[0]);
        lemma_lookup_push(s.drop_first(), p, k);
    } else {
        assert(s.push(p).drop_first() =~= Seq::<(Seq<char>, V)>::empty());
        assert(s.push(p)[0] == p);
        assert(lookup(s.push(p).drop_first(), k) is None);
        assert(lookup(s, k) is None);
    }
}

pub proof fn lemma_lookup_update<V>(s: Seq<(Seq<char>, V)>, i: int, v: V, k: Seq<char>)
    requires
        0 <= i < s.len(),
        forall|j: int| 0 <= j < i ==> s[j].0 != s[i].0,
    ensures
        lookup(s.update(i, (s[i].0, v)), k) == (if k == s[i].0 {
            Some(v)
        } else {
            lookup(s, k)
        }),
    decreases s.len(),
{
    let u = s.update(i, (s[i].0, v));
    if i > 0 {
        assert(u.drop_first() =~= s.drop_first().update(i - 1, (s[i].0, v)));
        assert(u[0] == s[0]);
        assert(s[0].0 != s[i].0);
        lemma_lookup_update(s.drop_first(), i - 1, v, k);
    } else {
        assert(u.drop_first() =~= s.drop_first());
        assert(u[0] == (s[i].0, v));
    }
}

/// The first unit of `units[k..]` that ends `v`, with the text before it;
/// `v` itself with no unit when none does.
pub open spec fn split_unit_from(v: Seq<char>, units: Seq<Unit>, k: int) -> (Seq<char>, Option<Unit>)
    decreases units.len() - k,
{
    if k < 0 || k >= units.len() {
        (v, None)
    } else {
        let name = units[k].name();
        if name.len() <= v.len() && v.subrange(v.len() - name.len(), v.len() as int) == name {
            (v.subrange(0, v.len() - name.len()), Some(units[k]))
        } else {
            split_unit_from(v, units, k + 1)
        }
    }
}

pub open spec fn split_unit(v: Seq<char>) -> (Seq<char>, Option<Unit>) {
    split_unit_from(v, unit_order(), 0)
}

/// A raw property value split into its text and unit.
pub open spec fn value_parts(v: Option<Seq<char>>) -> (Option<Seq<char>>, Option<Unit>) {
    match v {
        Some(t) => (Some(split_unit(t).0), split_unit(t).1),
        None => (None, None),
    }
}

/// A raw property value read as a number with its unit.
pub open spec fn number_parts(v: Option<Seq<char>>) -> (Option<Number>, Option<Unit>) {
    match v {
        Some(t) => (parse_number(split_unit(t).0), split_unit(t).1),
        None => (None, None),
    }
}

/// Splits a raw value into the text before its unit and the unit.
pub fn split_value(v: &str) -> (r: (String, Option<Unit>))
    ensures
        r.0@ == split_unit(v@).0,
        r.1 == split_unit(v@).1,
{
    let units = Unit::all();
    let n = v.unicode_len();
    let mut k: usize = 0;
    while k < units.len()
        invariant
            units@ == unit_order(),
            n == v@.len(),
            k <= units.len(),
            split_unit(v@) == split_unit_from(v@, unit_order(), k as int),
        decreases units.len() - k,
    {
        let u = units[k];
        let name = u.as_text();
        if ends_with_text(v, name) {
            let m = name.unicode_len();
            return (slice_text(v, 0, n - m), Some(u));
        }
        k += 1;
    }
    (String::from_str(v), None)
}

/// A style rule: its selectors and its raw property values.
#[derive(Debug)]
pub struct Style {
    pub selectors: Vec<Selector>,
    pub properties: Vec<(String, String)>,
}

impl Style {
    pub open spec fn props(&self) -> Seq<(Seq<char>, Seq<char>)> {
        self.properties@.map_values(|p: (String, String)| (p.0@, p.1@))
    }

    /// The raw value of `property`.
    pub open spec fn raw(&self, property: Seq<char>) -> Option<Seq<char>> {
        lookup(self.props(), property)
    }

    /// A rule with the given selectors and no properties.
    pub fn new(selectors: Vec<Selector>) -> (r: Style)
        ensures
            r.selectors@ == selectors@,
            r.props() == Seq::<(Seq<char>, Seq<char>)>::empty(),
    {
        let r = Style { selectors, properties: Vec::new() };
        assert(r.props() =~= Seq::<(Seq<char>, Seq<char>)>::empty());
        r
    }

    /// The position of the first pair with key `property`.
    fn find(&self, property: &str) -> (r: Option<usize>)
        ensures
            match r {
                Some(i) => i < self.properties.len() && self.props()[i as int].0 == property@
                    && forall|j: int| 0 <= j < i ==> self.props()[j].0 != property@,
                None => forall|j: int| 0 <= j < self.properties.len() ==> self.props()[j].0 != property@,
            },
            self.raw(property@) == match r {
                Some(i) => Some(self.props()[i as int].1),
                None => None::<Seq<char>>,
            },
    {
        let ghost ps = self.props();
        let mut i: usize = 0;
        assert(ps.subrange(0, ps.len() as int) =~= ps);
        while i < self.properties.len()
            invariant
                ps == self.props(),
                ps.len() == self.properties.len(),
                i <= self.properties.len(),
                forall|j: int| 0 <= j < i ==> ps[j].0 != property@,
                lookup(ps, property@) == lookup(ps.subrange(i as int, ps.len() as int), property@),
            decreases self.properties.len() - i,
        {
            if same_text(self.properties[i].0.as_str(), property) {
                proof {
                    assert(ps.subrange(i as int, ps.len() as int)[0] == ps[i as int]);
                }
                return Some(i);
            }
            proof {
                lemma_lookup_skip(ps, i as int, property@);
            }
            i += 1;
        }
        assert(ps.subrange(i as int, ps.len() as int) =~= Seq::<(Seq<char>, Seq<char>)>::empty());
        None
    }

    /// The raw value of `property`, if the rule sets it.
    pub fn get_raw(&self, property: &str) -> (r: Option<String>)
        ensures
            opt_view(r) == self.raw(property@),
    {
        match self.find(property) {
            Some(i) => Some(self.properties[i].1.clone()),
            None => None,
        }
    }

    /// The value of `property` split into its text and its unit, if it has
    /// one.
    pub fn get_value(&self, property: &str) -> (r: (Option<String>, Option<Unit>))
        ensures
            (opt_view(r.0), r.1) == value_parts(self.raw(property@)),
    {
        match self.find(property) {
            Some(i) => {
                let (t, u) = split_value(self.properties[i].1.as_str());
                (Some(t), u)
            },
            None => (None, None),
        }
    }

    /// The value of `property` read as a number, with its unit if it has one.
    pub fn get_number(&self, property: &str) -> (r: (Option<Number>, Option<Unit>))
        ensures
            r == number_parts(self.raw(property@)),
            r.0 matches Some(n) ==> n.wf(),
    {
        match self.find(property) {
            Some(i) => {
                let (t, u) = split_value(self.properties[i].1.as_str());
                (Number::parse(t.as_str()), u)
            },
            None => (None, None),
        }
    }

    /// Sets the value of `property` to `value` followed by the unit's
    /// keyword; other properties keep their values.
    pub fn set_value(&mut self, property: &str, value: &str, unit: Option<Unit>)
        ensures
            final(self).selectors == old(self).selectors,
            final(self).raw(property@) == Some(value@ + match unit {
                Some(u) => u.name(),
                None => Seq::<char>::empty(),
            }),
            forall|k: Seq<char>| k != property@ ==> #[trigger] final(self).raw(k) == old(self).raw(k),
    {
        let mut text = String::from_str(value);
        if let Some(u) = unit {
            text.append(u.as_text());
        }
        let ghost old_ps = self.props();
        match self.find(property) {
            Some(i) => {
                let key = String::from_str(property);
                self.properties.set(i, (key, text));
                proof {
                    assert(self.props() =~= old_ps.update(i as int, (old_ps[i as int].0, text@)));
                    assert forall|k: Seq<char>| #[trigger] self.raw(k) == (if k == old_ps[i as int].0 {
                        Some(text@)
                    } else {
                        lookup(old_ps, k)
                    }) by {
                        lemma_lookup_update(old_ps, i as int, text@, k);
                    }
                }
            },
            None => {
                let key = String::from_str(property);
                let ghost pair = (key@, text@);
                self.properties.push((key, text));
                proof {
                    assert(self.props() =~= old_ps.push(pair));
                    assert forall|k: Seq<char>| #[trigger] self.raw(k) == (if lookup(old_ps, k) is Some {
                        lookup(old_ps, k)
                    } else if pair.0 == k {
                        Some(pair.1)
                    } else {
                        None
                    }) by {
                        lemma_lookup_push(old_ps, pair, k);
                    }
                }
            },
        }
    }
}

/// The rule chosen for a property of a node, with the specificity it was
/// chosen by.
#[derive(Debug)]
pub struct SelectedStyle {
    pub specificity: Specificity,
    pub style: Rc<Style>,
}

impl SelectedStyle {
    /// The value of `property` in the chosen rule, split into text and unit.
    pub fn get_value(&self, property: &str) -> (r: (Option<String>, Option<Unit>))
        ensures
            (opt_view(r.0), r.1) == value_parts(self.style.raw(property@)),
    {
        self.style.get_value(property)
    }

    /// The value of `property` in the chosen rule, read as a number.
    pub fn get_number(&self, property: &str) -> (r: (Option<Number>, Option<Unit>))
        ensures
            r == number_parts(self.style.raw(property@)),
            r.0 matches Some(n) ==> n.wf(),
    {
        self.style.get_number(property)
    }

    /// The specificity the rule was chosen by.
    pub fn specificity(&self) -> (r: &Specificity)
        ensures
            *r == self.specificity,
    {
        &self.specificity
    }
}

/// One step of the cascade for one property: a rule that sets the property
/// takes it when nothing holds it yet or when its specificity is strictly
/// higher than that of the rule holding it; on equal specificity the rule
/// applied first keeps it.
pub open spec fn cascade_step(cur: Option<SelectedStyle>, style: Rc<Style>, sp: Specificity, prop: Seq<char>) -> Option<SelectedStyle> {
    if style.raw(prop) is Some && (cur is None || sp.outranks(cur->Some_0.specificity)) {
        Some(SelectedStyle { specificity: sp, style })
    } else {
        cur
    }
}

/// The style computed for one node: its own selector and, for each property
/// set by a matching rule, the rule chosen for it.
#[derive(Debug)]
pub struct ComputedStyle {
    pub selector: Selector,
    pub properties: Vec<(String, SelectedStyle)>,
}

impl ComputedStyle {
    pub open spec fn chosen(&self) -> Seq<(Seq<char>, SelectedStyle)> {
        self.properties@.map_values(|p: (String, SelectedStyle)| (p.0@, p.1))
    }

    /// The rule chosen for `property`.
    pub open spec fn selected(&self, property: Seq<char>) -> Option<SelectedStyle> {
        lookup(self.chosen(), property)
    }

    /// The raw value of `property` in the rule chosen for it.
    pub open spec fn raw(&self, property: Seq<char>) -> Option<Seq<char>> {
        match self.selected(property) {
            Some(sel) => sel.style.raw(property),
            None => None,
        }
    }

    pub fn new(selector: Selector) -> (r: ComputedStyle)
        ensures
            r.selector == selector,
            forall|p: Seq<char>| #[trigger] r.selected(p) is None,
    {
        let r = ComputedStyle { selector, properties: Vec::new() };
        assert(r.chosen() =~= Seq::<(Seq<char>, SelectedStyle)>::empty());
        r
    }

    /// The node's own selector.
    pub fn selector(&self) -> (r: &Selector)
        ensures
            *r == self.selector,
    {
        &self.selector
    }

    fn find(&self, property: &str) -> (r: Option<usize>)
        ensures
            match r {
                Some(i) => i < self.properties.len() && self.chosen()[i as int].0 == property@
                    && forall|j: int| 0 <= j < i ==> self.chosen()[j].0 != property@,
                None => forall|j: int| 0 <= j < self.properties.len() ==> self.chosen()[j].0 != property@,
            },
            self.selected(property@) == match r {
                Some(i) => Some(self.chosen()[i as int].1),
                None => None::<SelectedStyle>,
            },
    {
        let ghost ps = self.chosen();
        let mut i: usize = 0;
        assert(ps.subrange(0, ps.len() as int) =~= ps);
        while i < self.properties.len()
            invariant
                ps == self.chosen(),
                ps.len() == self.properties.len(),
                i <= self.properties.len(),
                forall|j: int| 0 <= j < i ==> ps[j].0 != property@,
                lookup(ps, property@) == lookup(ps.subrange(i as int, ps.len() as int), property@),
            decreases self.properties.len() - i,
        {
            if same_text(self.properties[i].0.as_str(), property) {
                proof {
                    assert(ps.subrange(i as int, ps.len() as int)[0] == ps[i as int]);
                }
                return Some(i);
            }
            proof {
                lemma_lookup_skip(ps, i as int, property@);
            }
            i += 1;
        }
        assert(ps.subrange(i as int, ps.len() as int) =~= Seq::<(Seq<char>, SelectedStyle)>::empty());
        None
    }

    /// The value of `property` in the rule chosen for it, split into text
    /// and unit.
    pub fn get_value(&self, property: &str) -> (r: (Option<String>, Option<Unit>))
        ensures
            (opt_view(r.0), r.1) == value_parts(self.raw(property@)),
    {
        match self.find(property) {
            Some(i) => self.properties[i].1.get_value(property),
            None => (None, None),
        }
    }

    /// The value of `property` in the rule chosen for it, read as a number.
    pub fn get_number(&self, property: &str) -> (r: (Option<Number>, Option<Unit>))
        ensures
            r == number_parts(self.raw(property@)),
            r.0 matches Some(n) ==> n.wf(),
    {
        match self.find(property) {
            Some(i) => self.properties[i].1.get_number(property),
            None => (None, None),
        }
    }

    /// Offers every property of `style` to this node at the given
    /// specificity; each one is taken only on a strictly higher specificity
    /// than the rule holding it.
    pub fn apply_style(&mut self, style: Rc<Style>, specificity: &Specificity)
        ensures
            final(self).selector == old(self).selector,
            forall|p: Seq<char>| #[trigger] final(self).selected(p) == cascade_step(
                old(self).selected(p),
                style,
                *specificity,
                p,
            ),
    {
        let ghost sp = style.props();
        let ghost start = self.chosen();
        let mut i: usize = 0;
        while i < style.properties.len()
            invariant
                sp == style.props(),
                sp.len() == style.properties.len(),
                i <= style.properties.len(),
                self.selector == old(self).selector,
                start == old(self).chosen(),
                forall|p: Seq<char>| #[trigger] lookup(self.chosen(), p) == if lookup(sp.subrange(0, i as int), p) is Some {
                    cascade_step(lookup(start, p), style, *specificity, p)
                } else {
                    lookup(start, p)
                },
            decreases style.properties.len() - i,
        {
            let key = &style.properties[i].0;
            let ghost k = key@;
            let ghost before = self.chosen();
            proof {
                assert(sp.subrange(0, i + 1) =~= sp.subrange(0, i as int).push(sp[i as int]));
                assert forall|p: Seq<char>| lookup(#[trigger] sp.subrange(0, i + 1), p) == (if lookup(sp.subrange(0, i as int), p) is Some {
                    lookup(sp.subrange(0, i as int), p)
                } else if sp[i as int].0 == p {
                    Some(sp[i as int].1)
                } else {
                    None
                }) by {
                    lemma_lookup_push(sp.subrange(0, i as int), sp[i as int], p);
                }
                assert(style.raw(k) is Some) by {
                    if lookup(sp.subrange(0, i as int), k) is None {
                        assert(lookup(sp.subrange(0, i + 1), k) is Some);
                    }
                    lemma_lookup_some_prefix(sp, i + 1, k);
                }
            }
            match self.find(key.as_str()) {
                Some(j) => {
                    if specificity.greater_than(&self.properties[j].1.specificity) {
                        let sel = SelectedStyle { specificity: *specificity, style: style.clone() };
                        let name = key.clone();
                        self.properties.set(j, (name, sel));
                        proof {
                            assert(self.chosen() =~= before.update(j as int, (before[j as int].0, sel)));
                            assert forall|p: Seq<char>| #[trigger] self.selected(p) == (if p == before[j as int].0 {
                                Some(sel)
                            } else {
                                lookup(before, p)
                            }) by {
                                lemma_lookup_update(before, j as int, sel, p);
                            }
                        }
                    }
                },
                None => {
                    let sel = SelectedStyle { specificity: *specificity, style: style.clone() };
                    let name = key.clone();
                    self.properties.push((name, sel));
                    proof {
                        assert(self.chosen() =~= before.push((k, sel)));
                        assert forall|p: Seq<char>| #[trigger] self.selected(p) == (if lookup(before, p) is Some {
                            lookup(before, p)
                        } else if k == p {
                            Some(sel)
                        } else {
                            None
                        }) by {
                            lemma_lookup_push(before, (k, sel), p);
                        }
                    }
                },
            }
            proof {
                assert forall|p: Seq<char>| #[trigger] lookup(self.chosen(), p) == if lookup(sp.subrange(0, i + 1), p) is Some {
                    cascade_step(lookup(start, p), style, *specificity, p)
                } else {
                    lookup(start, p)
                } by {
                    if p != k {
                        assert(self.selected(p) == lookup(before, p));
                        assert((lookup(sp.subrange(0, i + 1), p) is Some) == (lookup(sp.subrange(0, i as int), p) is Some));
                    } else {
                        assert(lookup(sp.subrange(0, i + 1), p) is Some);
                        assert(style.raw(p) is Some);
                        if lookup(sp.subrange(0, i as int), p) is Some {
                            assert(lookup(before, p) == cascade_step(lookup(start, p), style, *specificity, p));
                            assert(lookup(before, p) is Some);
                            assert(self.selected(p) == lookup(before, p));
                        } else {
                            assert(lookup(before, p) == lookup(start, p));
                            assert(self.selected(p) == cascade_step(lookup(start, p), style, *specificity, p));
                        }
                    }
                }
            }
            i += 1;
        }
        assert(sp.subrange(0, sp.len() as int) =~= sp);
        assert forall|p: Seq<char>| #[trigger] self.selected(p) == cascade_step(old(self).selected(p), style, *specificity, p) by {
            if lookup(sp, p) is None {
                assert(style.raw(p) is None);
            }
        }
    }
}

pub proof fn lemma_lookup_some_prefix<V>(s: Seq<(Seq<char>, V)>, n: int, k: Seq<char>)
    requires
        0 <= n <= s.len(),
        lookup(s.subrange(0, n), k) is Some,
    ensures
        lookup(s, k) is Some,
    decreases n,
{
    if s[0].0 != k {
        assert(s.subrange(0, n).drop_first() =~= s.drop_first().subrange(0, n - 1));
        lemma_lookup_some_prefix(s.drop_first(), n - 1, k);
    }
}

/// The display keyword `t` names, if any.
pub open spec fn parse_display(t: Seq<char>) -> Option<Display> {
    if t == "block"@ {
        Some(Display::Block)
    } else if t == "inline-block"@ {
        Some(Display::InlineBlock)
    } else if t == "inline"@ {
        Some(Display::Inline)
    } else if t == "flex"@ {
        Some(Display::Flex)
    } else if t == "grid"@ {
        Some(Display::Grid)
    } else if t == "none"@ {
        Some(Display::Hidden)
    } else {
        None
    }
}

impl Display {
    pub fn parse(s: &str) -> (r: Option<Display>)
        ensures
            r == parse_display(s@),
    {
        if same_text(s, "block") {
            Some(Display::Block)
        } else if same_text(s, "inline-block") {
            Some(Display::InlineBlock)
        } else if same_text(s, "inline") {
            Some(Display::Inline)
        } else if same_text(s, "flex") {
            Some(Display::Flex)
        } else if same_text(s, "grid") {
            Some(Display::Grid)
        } else if same_text(s, "none") {
            Some(Display::Hidden)
        } else {
            None
        }
    }
}

/// Specificity orders selectors by their id count, then class count, then
/// tag count: one outranks another exactly when its triple is
/// lexicographically greater, and the order agrees with `partial_cmp`.
pub proof fn lemma_specificity_order(a: SelectorView, b: SelectorView)
    requires
        a.classes.len() <= u32::MAX,
        b.classes.len() <= u32::MAX,
    ensures
        a.specificity().outranks(b.specificity()) <==> ((a.id is Some && b.id is None) || ((a.id is Some)
            == (b.id is Some) && (a.classes.len() > b.classes.len() || (a.classes.len()
            == b.classes.len() && a.tag is Some && b.tag is None)))),
        a.specificity().outranks(b.specificity()) ==> !b.specificity().outranks(a.specificity()),
        a.specificity().partial_cmp_spec(&b.specificity()) == Some(core::cmp::Ordering::Greater)
            <==> a.specificity().outranks(b.specificity()),
{
}

/// The value of a hexadecimal digit.
pub open spec fn hex_value(c: char) -> Option<int> {
    if '0' <= c && c <= '9' {
        Some(c as int - '0' as int)
    } else if 'a' <= c && c <= 'f' {
        Some(c as int - 'a' as int + 10)
    } else if 'A' <= c && c <= 'F' {
        Some(c as int - 'A' as int + 10)
    } else {
        None
    }
}

/// The byte written by two hexadecimal digits.
pub open spec fn hex_byte(a: char, b: char) -> Option<u8> {
    match (hex_value(a), hex_value(b)) {
        (Some(x), Some(y)) => Some((x * 16 + y) as u8),
        _ => None,
    }
}

/// An opaque colour; only `#rrggbb` is read.
#[derive(Clone, Copy, Debug, PartialEq, Eq, Structural)]
pub struct CssColor {
    pub r: u8,
    pub g: u8,
    pub b: u8,
    pub a: u8,
}

/// The colour `#rrggbb` at the start of `s` names.
pub open spec fn parse_color(s: Seq<char>) -> Option<CssColor> {
    if s.len() >= 7 && s[0] == '#' {
        match (hex_byte(s[1], s[2]), hex_byte(s[3], s[4]), hex_byte(s[5], s[6])) {
            (Some(r), Some(g), Some(b)) => Some(CssColor { r, g, b, a: 255 }),
            _ => None,
        }
    } else {
        None
    }
}

fn hex_digit(c: char) -> (r: Option<u8>)
    ensures
        match hex_value(c) {
            Some(v) => r == Some(v as u8) && v < 16,
            None => r is None,
        },
{
    if '0' <= c && c <= '9' {
        Some((c as u32 - '0' as u32) as u8)
    } else if 'a' <= c && c <= 'f' {
        Some((c as u32 - 'a' as u32 + 10) as u8)
    } else if 'A' <= c && c <= 'F' {
        Some((c as u32 - 'A' as u32 + 10) as u8)
    } else {
        None
    }
}

fn read_hex_byte(s: &str, i: usize) -> (r: Option<u8>)
    requires
        i + 1 < s@.len(),
        i < 8,
    ensures
        r == hex_byte(s@[i as int], s@[i + 1]),
{
    match (hex_digit(s.get_char(i)), hex_digit(s.get_char(i + 1))) {
        (Some(x), Some(y)) => Some(x * 16 + y),
        _ => None,
    }
}

impl CssColor {
    /// Reads a colour written `#rrggbb`; anything after the six digits is
    /// ignored.
    pub fn from_str(s: &str) -> (r: Result<CssColor, CssParseError>)
        ensures
            match r {
                Ok(c) => parse_color(s@) == Some(c),
                Err(e) => parse_color(s@) is None && e.css@ == s@,
            },
    {
        let fail = CssParseError { css: String::from_str(s), message: String::from_str("invalid or unsupported color value") };
        if s.unicode_len() < 7 || s.get_char(0) != '#' {
            return Err(fail);
        }
        let r = read_hex_byte(s, 1);
        let g = read_hex_byte(s, 3);
        let b = read_hex_byte(s, 5);
        match (r, g, b) {
            (Some(r), Some(g), Some(b)) => Ok(CssColor { r, g, b, a: 255 }),
            _ => Err(fail),
        }
    }
}

/// One declaration line of a computed style: the property, its value and
/// unit; nothing when the chosen rule has no value for it.
pub open spec fn declaration_text(p: Seq<char>, sel: SelectedStyle) -> Seq<char> {
    let (v, u) = value_parts(sel.style.raw(p));
    match v {
        Some(t) => "\t"@ + p + ": "@ + t + (match u {
            Some(unit) => unit.name(),
            None => Seq::empty(),
        }) + ";\n"@,
        None => Seq::empty(),
    }
}

pub open spec fn declarations_text(chosen: Seq<(Seq<char>, SelectedStyle)>) -> Seq<char>
    decreases chosen.len(),
{
    if chosen.len() == 0 {
        Seq::empty()
    } else {
        declarations_text(chosen.drop_last()) + declaration_text(chosen.last().0, chosen.last().1)
    }
}

impl ComputedStyle {
    /// This computed style written as a style rule: the node's selector,
    /// then one declaration per chosen property, in the order they were
    /// first chosen.
    pub fn to_string(&self) -> (r: String)
        ensures
            r@ == self.selector@.text() + " {\n"@ + declarations_text(self.chosen()) + "}"@,
    {
        let mut out = self.selector.to_string();
        out.append(" {\n");
        let ghost head = out@;
        let ghost ch = self.chosen();
        let mut i: usize = 0;
        while i < self.properties.len()
            invariant
                i <= self.properties@.len(),
                ch == self.chosen(),
                out@ == head + declarations_text(ch.subrange(0, i as int)),
            decreases self.properties@.len() - i,
        {
            let name = &self.properties[i].0;
            let (value, unit) = self.properties[i].1.get_value(name.as_str());
            let ghost before = out@;
            if let Some(v) = value {
                out.append("\t");
                out.append(name.as_str());
                out.append(": ");
                out.append(v.as_str());
                if let Some(u) = unit {
                    out.append(u.as_text());
                }
                out.append(";\n");
            }
            proof {
                assert(ch.subrange(0, i + 1).drop_last() =~= ch.subrange(0, i as int));
                assert(ch.subrange(0, i + 1).last() == ch[i as int]);
                assert(out@ =~= before + declaration_text(ch[i as int].0, ch[i as int].1));
            }
            i += 1;
        }
        assert(ch.subrange(0, ch.len() as int) =~= ch);
        out.append("}");
        out
    }
}

} // verus!
