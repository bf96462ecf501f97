use std::rc::Rc;

use yargl::css::{Selector, Specificity, Style, Unit};
use yargl::document::Document;
use yargl::element::{Element, WindowCreationOptions};
use yargl::engine::Page;
use yargl::event::{EventReturnCode, GenericEventReceiver, ScrollEvent};
use yargl::font::{glyph_advance_width, FontMetrics};
use yargl::layout::LayoutValue;
use yargl::paint::corner_rows;
use yargl::text::trimmed;
use yargl::util::{quarter_circle_lines, Rect, Segment};

fn s(t: &str) -> String {
    t.to_string()
}

#[test]
fn corner_lines_follow_the_midpoint_algorithm() {
    let lines = quarter_circle_lines(10, 20, 1, 1, 1).unwrap();
    // Radius 1: one step at (1, 0), then the error moves x in and the loop ends.
    assert_eq!(lines.len(), 8);
    assert_eq!(lines[0], Segment { x0: 10, y0: 20, x1: 11, y1: 20 });
    assert_eq!(lines[1], Segment { x0: 10, y0: 20, x1: 10, y1: 21 });
    assert_eq!(lines[3], Segment { x0: 10, y0: 20, x1: 9, y1: 20 });
    let flipped = quarter_circle_lines(0, 0, 1, -1, -1).unwrap();
    assert_eq!(flipped[0], Segment { x0: 0, y0: 0, x1: -1, y1: 0 });
    let bigger = quarter_circle_lines(0, 0, 10, 1, 1).unwrap();
    assert_eq!(bigger.len() % 8, 0);
    assert!(bigger.len() > 8);
    assert!(quarter_circle_lines(0, 0, 0, 1, 1).is_err());
    assert_eq!(quarter_circle_lines(0, 0, -3, 1, 1).unwrap_err().msg, "Radius must be greater than 0");
    assert!(quarter_circle_lines(0, 0, 2_000_000, 1, 1).is_err());
}

fn metrics() -> FontMetrics {
    FontMetrics { units_per_em: 1000, advances: vec![('a', 500), ('b', 500), (' ', 500), ('\n', 0)] }
}

#[test]
fn glyph_widths_scale_with_line_height() {
    assert_eq!(glyph_advance_width(500, 20, 1000), 10);
    assert_eq!(glyph_advance_width(333, 10, 1000), 3);
    assert_eq!(glyph_advance_width(500, -20, 1000), -10);
}

#[test]
fn text_breaks_at_spaces_when_too_wide() {
    let m = metrics();
    let breaks = vec![' '];
    let laid = m.break_text("ab ab", 20, 0, 0, Some(35), &breaks);
    assert_eq!(laid.lines, vec![s("ab"), s(" ab")]);
    assert_eq!(laid.height, 20);
    assert_eq!(laid.width, 30);
    let wide = m.break_text("aaaa", 20, 0, 0, Some(25), &breaks);
    assert_eq!(wide.lines, vec![s("aaaa")]);
    assert_eq!(wide.end_x, 40);
    let one = m.break_text("ab", 20, 0, 0, None, &breaks);
    assert_eq!(one.lines, vec![s("ab")]);
    assert_eq!((one.width, one.height, one.end_x, one.end_y), (20, 0, 20, 0));
    let lines = m.break_text("a\nb", 20, 0, 100, None, &breaks);
    assert_eq!(lines.lines, vec![s("a"), s("b")]);
    assert_eq!(lines.end_y, 120);
    let unknown = m.break_text("zz", 20, 0, 0, None, &breaks);
    assert_eq!(unknown.lines, vec![s("")]);
}

#[test]
fn text_layout_flows_glyphs_into_the_parent() {
    let m = metrics();
    let mut parent = yargl::layout::NodeLayoutInfo::new();
    m.text_layout("abz", 20, &mut parent);
    assert_eq!(parent.get(LayoutValue::ContentLineWidth), Some(20));
    assert_eq!(parent.get(LayoutValue::ContentLineHeight), Some(20));
    assert_eq!(m.advance('b'), Some(500));
    assert_eq!(m.advance('z'), None);
}

#[test]
fn return_codes_and_scrolls() {
    assert!(EventReturnCode::Continue.keeps_going());
    assert!(!EventReturnCode::Quit.keeps_going());
    assert!(!EventReturnCode::Cancel.keeps_going());
    let e = ScrollEvent::from_wheel(3, -2, true, 9);
    assert_eq!((e.x, e.y, e.timestamp), (-3, 2, 9));
    let e = ScrollEvent::from_wheel(3, -2, false, 9);
    assert_eq!((e.x, e.y), (3, -2));
}

#[test]
fn receivers_keep_listeners_in_order() {
    let mut r: GenericEventReceiver<u8> = GenericEventReceiver::new();
    assert_eq!(r.len(), 0);
    r.add_listener(4);
    r.add_listener(7);
    assert_eq!(r.len(), 2);
    assert_eq!(*r.listener(1), 7);
}

#[test]
fn trigger_stops_at_the_first_listener_that_does_not_go_on() {
    let mut r: GenericEventReceiver<fn(&u32, &u32) -> EventReturnCode> = GenericEventReceiver::new();
    assert_eq!(r.trigger(&1, &2), EventReturnCode::Continue);
    fn go(_: &u32, _: &u32) -> EventReturnCode {
        EventReturnCode::Continue
    }
    fn cancel(_: &u32, _: &u32) -> EventReturnCode {
        EventReturnCode::Cancel
    }
    fn quit(_: &u32, _: &u32) -> EventReturnCode {
        EventReturnCode::Quit
    }
    r.add_listener(go);
    assert_eq!(r.trigger(&1, &2), EventReturnCode::Continue);
    r.add_listener(cancel);
    r.add_listener(quit);
    assert_eq!(r.trigger(&1, &2), EventReturnCode::Cancel);
    r.remove_listener(&(cancel as fn(&u32, &u32) -> EventReturnCode));
    assert_eq!(r.len(), 2);
    assert_eq!(r.trigger(&1, &2), EventReturnCode::Quit);
}

#[test]
fn elements_hold_children() {
    let mut e = Element::new();
    assert_eq!((e.get_x(), e.get_y(), e.get_width(), e.get_height(), e.get_radius()), (0, 0, 0, 0, 0));
    assert!(e.enabled);
    let a = Rc::new(Element::new());
    let b = Rc::new(Element::new());
    e.add_child(a.clone());
    e.add_children(vec![b.clone(), a.clone()]);
    assert_eq!(e.get_children().len(), 3);
    assert_eq!(e.iter_children().count(), 3);
    e.remove_child(a.clone());
    assert_eq!(e.get_children().len(), 1);
    assert!(Rc::ptr_eq(&e.get_children()[0], &b));
    e.set_children(vec![]);
    let inner = Element::new().get_inner_rect();
    assert_eq!((inner.x, inner.y, inner.w, inner.h), (0, 0, 0, 0));
    assert!(e.get_children().is_empty());
    let o = WindowCreationOptions { title: s("t"), width: 8, height: 6 };
    assert_eq!(o.clone().width, 8);
}

#[test]
fn page_cascade_reaches_matching_elements_only() {
    let mut doc = Document::new();
    let root = doc.add_element(None, Selector::from_attributes(Some(s("div")), "a b", None));
    let text = doc.add_text(Some(root), s("hello"));
    let other = doc.add_element(Some(root), Selector::from_attributes(Some(s("span")), "a", None));
    let mut first = Style::new(vec![Selector::new(Some(s("div")), vec![s("a")], None)]);
    first.set_value("width", "10", Some(Unit::Px));
    let mut second = Style::new(vec![Selector::new(None, vec![s("a")], None), Selector::new(Some(s("div")), vec![s("a"), s("b")], None)]);
    second.set_value("width", "20", Some(Unit::Px));
    second.set_value("height", "5", Some(Unit::Px));
    let mut page = Page::new(doc, 100, 100);
    page.compute_styles(&vec![Rc::new(first), Rc::new(second)]);
    let root_style = page.styles[root].as_ref().unwrap();
    assert_eq!(root_style.get_raw_for_test("width"), Some(s("20px")));
    assert_eq!(root_style.properties.iter().find(|p| p.0 == "width").unwrap().1.specificity, Specificity::new(0, 2, 1));
    assert!(page.styles[text].is_none());
    let other_style = page.styles[other].as_ref().unwrap();
    assert_eq!(other_style.get_raw_for_test("width"), Some(s("20px")));
    assert_eq!(other_style.selector().tag_name, Some(s("span")));
}

trait RawForTest {
    fn get_raw_for_test(&self, p: &str) -> Option<String>;
}

impl RawForTest for yargl::css::ComputedStyle {
    fn get_raw_for_test(&self, p: &str) -> Option<String> {
        match self.get_value(p) {
            (Some(v), Some(u)) => Some(format!("{}{}", v, u.to_string())),
            (Some(v), None) => Some(v),
            _ => None,
        }
    }
}

#[test]
fn resolving_units_directly() {
    let mut doc = Document::new();
    let root = doc.add_element(None, Selector::new(Some(s("div")), vec![], None));
    let page = Page::new(doc, 300, 200);
    let n = yargl::css::Number::from_int(10);
    assert_eq!(page.calc_size_top_down(LayoutValue::Width, Some(n), Some(Unit::Vw), root), Some(30));
    assert_eq!(page.calc_size_top_down(LayoutValue::Width, Some(n), Some(Unit::Vmin), root), Some(20));
    assert_eq!(page.calc_size_top_down(LayoutValue::Width, Some(n), Some(Unit::Vmax), root), Some(30));
    assert_eq!(page.calc_size_top_down(LayoutValue::Width, Some(n), Some(Unit::Pt), root), Some(13));
    assert_eq!(page.calc_size_top_down(LayoutValue::Width, Some(n), Some(Unit::Pc), root), Some(160));
    assert_eq!(page.calc_size_top_down(LayoutValue::Width, Some(n), Some(Unit::Mm), root), Some(37));
    assert_eq!(page.calc_size_top_down(LayoutValue::Width, Some(n), Some(Unit::Q), root), Some(9));
    assert_eq!(page.calc_size_top_down(LayoutValue::Width, Some(n), Some(Unit::Fr), root), None);
    assert_eq!(page.calc_size_top_down(LayoutValue::Width, Some(n), None, root), None);
    assert_eq!(page.calc_size_top_down(LayoutValue::FontSize, Some(n), Some(Unit::Em), root), None);
    assert_eq!(page.calc_size_top_down(LayoutValue::PaddingTop, Some(n), Some(Unit::Percent), root), None);
}

#[test]
fn rounded_corners_are_stamped_row_by_row() {
    let rows = corner_rows(10, 10, 1);
    assert_eq!(
        rows,
        vec![
            Rect { x: 9, y: 10, w: 3, h: 1 },
            Rect { x: 10, y: 11, w: 1, h: 1 },
            Rect { x: 9, y: 10, w: 3, h: 1 },
            Rect { x: 10, y: 9, w: 1, h: 1 },
        ]
    );
    assert!(corner_rows(10, 10, 0).is_empty());
    let mut buf = yargl::util::IdBuffer::new(40, 40);
    for r in corner_rows(20, 20, 5) {
        buf.fill_rect(r, 3);
    }
    assert_eq!(buf.query(20, 16), Some(3));
    assert_eq!(buf.query(16, 20), Some(3));
    assert_eq!(buf.query(17, 17), Some(3));
    assert_eq!(buf.query(14, 14), None);
}

#[test]
fn trimming_removes_unicode_white_space() {
    assert_eq!(trimmed(" \t hi there\u{a0}\n"), "hi there");
    assert_eq!(trimmed("\u{3000}"), "");
    assert_eq!(trimmed("x"), "x");
}
