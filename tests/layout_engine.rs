use std::rc::Rc;

use yargl::css::{Selector, Style, Unit};
use yargl::document::Document;
use yargl::engine::Page;
use yargl::font::FontMetrics;
use yargl::layout::{LayoutValue, NodeLayoutInfo};
use yargl::paint::BoxGeometry;
use yargl::util::{pack_id_color, u32_from_bytes, unpack_id_color, IdBuffer, Rect, Rgba};

fn s(t: &str) -> String {
    t.to_string()
}

fn tag(name: &str, id: Option<&str>) -> Selector {
    Selector::new(Some(s(name)), vec![], id.map(s))
}

fn rule(id: &str, props: &[(&str, &str, Option<Unit>)]) -> Rc<Style> {
    let mut st = Style::new(vec![Selector::new(None, vec![], Some(s(id)))]);
    for (p, v, u) in props {
        st.set_value(p, v, *u);
    }
    Rc::new(st)
}

fn width_of(page: &Page, i: usize) -> Option<i32> {
    page.layouts[i].get(LayoutValue::Width)
}

#[test]
fn percentages_take_different_bases() {
    let mut doc = Document::new();
    let root = doc.add_element(None, tag("div", Some("root")));
    let a = doc.add_element(Some(root), tag("div", Some("a")));
    let b = doc.add_element(Some(root), tag("div", Some("b")));
    let rules = vec![
        rule("root", &[("display", "block", None), ("width", "200", Some(Unit::Px))]),
        rule("a", &[("display", "block", None), ("width", "50", Some(Unit::Percent))]),
        rule("b", &[("display", "block", None), ("width", "80", Some(Unit::Px)), ("padding-top", "50", Some(Unit::Percent))]),
    ];
    let mut page = Page::new(doc, 800, 600);
    page.refresh(&rules, &vec![]);
    assert_eq!(width_of(&page, root), Some(200));
    assert_eq!(width_of(&page, a), Some(100));
    assert_eq!(page.layouts[b].get(LayoutValue::PaddingTop), Some(40));
}

#[test]
fn root_percentages_use_the_viewport() {
    let mut doc = Document::new();
    let root = doc.add_element(None, tag("div", Some("root")));
    let rules = vec![rule(
        "root",
        &[("display", "block", None), ("width", "50", Some(Unit::Percent)), ("height", "50", Some(Unit::Percent)), ("margin-left", "10", Some(Unit::Vw))],
    )];
    let mut page = Page::new(doc, 800, 600);
    page.refresh(&rules, &vec![]);
    assert_eq!(width_of(&page, root), Some(400));
    assert_eq!(page.layouts[root].get(LayoutValue::Height), Some(300));
    assert_eq!(page.layouts[root].get(LayoutValue::MarginLeft), Some(80));
}

#[test]
fn em_uses_parent_font_size_for_font_size_only() {
    let mut doc = Document::new();
    let root = doc.add_element(None, tag("div", Some("root")));
    let child = doc.add_element(Some(root), tag("div", Some("c")));
    let rules = vec![
        rule("root", &[("font-size", "10", Some(Unit::Px))]),
        rule("c", &[("font-size", "2", Some(Unit::Em)), ("padding-left", "1.5", Some(Unit::Em)), ("display", "block", None), ("width", "1", Some(Unit::In))]),
    ];
    let mut page = Page::new(doc, 800, 600);
    page.refresh(&rules, &vec![]);
    assert_eq!(page.layouts[child].get(LayoutValue::FontSize), Some(20));
    assert_eq!(page.layouts[child].get(LayoutValue::PaddingLeft), Some(30));
    assert_eq!(width_of(&page, child), Some(96));
}

#[test]
fn display_none_is_zero_sized() {
    let mut doc = Document::new();
    let root = doc.add_element(None, tag("div", Some("root")));
    let rules = vec![rule("root", &[("display", "none", None), ("width", "300", Some(Unit::Px)), ("height", "40", Some(Unit::Px))])];
    let mut page = Page::new(doc, 800, 600);
    page.refresh(&rules, &vec![]);
    assert_eq!(width_of(&page, root), Some(0));
    assert_eq!(page.layouts[root].get(LayoutValue::Height), Some(0));
}

#[test]
fn inline_flow_wraps_the_third_child() {
    let mut parent = NodeLayoutInfo::new();
    parent.set(LayoutValue::Width, Some(100));
    assert_eq!(parent.reverse_flow_inline(40, 10), (0, 0));
    assert_eq!(parent.reverse_flow_inline(40, 10), (40, 0));
    assert_eq!(parent.get(LayoutValue::ContentHeight), None);
    assert_eq!(parent.reverse_flow_inline(40, 10), (0, 10));
    assert_eq!(parent.get(LayoutValue::ContentHeight), Some(10));
    assert_eq!(parent.get(LayoutValue::ContentWidth), Some(80));
    parent.reverse_break_line();
    assert_eq!(parent.get(LayoutValue::ContentHeight), Some(20));
}

#[test]
fn an_item_wider_than_the_line_does_not_leave_an_empty_line() {
    let mut parent = NodeLayoutInfo::new();
    parent.set(LayoutValue::Width, Some(10));
    assert_eq!(parent.reverse_flow_inline(40, 10), (0, 0));
    assert_eq!(parent.get(LayoutValue::ContentHeight), None);
    assert_eq!(parent.reverse_flow_inline(5, 10), (0, 10));
}

#[test]
fn block_children_take_lines_of_their_own() {
    let mut parent = NodeLayoutInfo::new();
    assert_eq!(parent.reverse_flow_block(30, 10), (0, 0));
    assert_eq!(parent.reverse_flow_block(50, 5), (0, 10));
    assert_eq!(parent.get(LayoutValue::ContentHeight), Some(15));
    assert_eq!(parent.get(LayoutValue::ContentWidth), Some(50));
}

#[test]
fn content_sizes_a_box_and_inline_children_wrap() {
    let mut doc = Document::new();
    let root = doc.add_element(None, tag("div", Some("root")));
    for name in ["x", "y", "z"] {
        doc.add_element(Some(root), tag("span", Some(name)));
    }
    let inline = |id: &str| rule(id, &[("display", "inline-block", None), ("width", "40", Some(Unit::Px)), ("height", "10", Some(Unit::Px))]);
    let rules = vec![rule("root", &[("display", "block", None), ("width", "100", Some(Unit::Px))]), inline("x"), inline("y"), inline("z")];
    let mut page = Page::new(doc, 800, 600);
    page.refresh(&rules, &vec![]);
    assert_eq!(page.layouts[root].get(LayoutValue::Height), Some(20));
    assert_eq!(page.layouts[root].get(LayoutValue::ContentWidth), Some(80));
    let ys: Vec<Option<i32>> = (1..4).map(|i| page.layouts[i].get(LayoutValue::Y)).collect();
    assert_eq!(ys, vec![Some(0), Some(0), Some(10)]);
    let xs: Vec<Option<i32>> = (1..4).map(|i| page.layouts[i].get(LayoutValue::X)).collect();
    assert_eq!(xs, vec![Some(0), Some(40), Some(0)]);
}

#[test]
fn positions_add_the_parent_position() {
    let mut doc = Document::new();
    let root = doc.add_element(None, tag("div", Some("root")));
    let a = doc.add_element(Some(root), tag("div", Some("a")));
    let b = doc.add_element(Some(root), tag("div", Some("b")));
    let c = doc.add_element(Some(b), tag("span", Some("c")));
    let block = |id: &str, h: &str| rule(id, &[("display", "block", None), ("width", "50", Some(Unit::Px)), ("height", h, Some(Unit::Px))]);
    let rules = vec![
        rule("root", &[("display", "block", None), ("width", "100", Some(Unit::Px))]),
        block("a", "10"),
        block("b", "20"),
        rule("c", &[("display", "inline-block", None), ("width", "5", Some(Unit::Px)), ("height", "5", Some(Unit::Px))]),
    ];
    let mut page = Page::new(doc, 800, 600);
    page.refresh(&rules, &vec![]);
    assert_eq!(page.layouts[root].get(LayoutValue::Y), Some(0));
    assert_eq!(page.layouts[a].get(LayoutValue::Y), Some(0));
    assert_eq!(page.layouts[b].get(LayoutValue::Y), Some(10));
    assert_eq!(page.layouts[c].get(LayoutValue::Y), Some(10));
    assert_eq!(page.layouts[c].get(LayoutValue::X), Some(0));
    assert_eq!(page.layouts[root].get(LayoutValue::Height), Some(30));
}

#[test]
fn text_is_trimmed_and_measured_in_the_parent_font() {
    let mut doc = Document::new();
    let root = doc.add_element(None, tag("div", Some("root")));
    doc.add_text(Some(root), s(" hi "));
    let rules = vec![rule(
        "root",
        &[("display", "block", None), ("width", "200", Some(Unit::Px)), ("font-size", "20", Some(Unit::Px)), ("font-family", "Times, Arial", None)],
    )];
    let metrics = FontMetrics { units_per_em: 1000, advances: vec![('h', 500), ('i', 250), (' ', 100)] };
    let fonts = vec![(s("arial"), metrics)];
    let mut page = Page::new(doc, 800, 600);
    page.refresh(&rules, &fonts);
    assert_eq!(page.layouts[root].get(LayoutValue::ContentWidth), Some(15));
    assert_eq!(page.layouts[root].get(LayoutValue::Height), Some(20));
}

#[test]
fn whitespace_only_text_takes_no_place() {
    let mut doc = Document::new();
    let root = doc.add_element(None, tag("div", Some("root")));
    doc.add_text(Some(root), s("  \n "));
    let rules = vec![rule("root", &[("display", "block", None), ("font-size", "20", Some(Unit::Px)), ("font-family", "arial", None)])];
    let fonts = vec![(s("arial"), FontMetrics { units_per_em: 1000, advances: vec![(' ', 100)] })];
    let mut page = Page::new(doc, 800, 600);
    page.refresh(&rules, &fonts);
    assert_eq!(page.layouts[root].get(LayoutValue::Height), Some(0));
    assert_eq!(page.layouts[root].get(LayoutValue::Width), Some(0));
}

#[test]
fn layout_twice_gives_identical_records() {
    let mut doc = Document::new();
    let root = doc.add_element(None, tag("div", Some("root")));
    let a = doc.add_element(Some(root), tag("div", Some("a")));
    doc.add_element(Some(a), tag("span", Some("b")));
    let rules = vec![
        rule("root", &[("display", "block", None), ("width", "300", Some(Unit::Px)), ("padding-left", "10", Some(Unit::Percent))]),
        rule("a", &[("display", "block", None), ("height", "2", Some(Unit::Cm))]),
        rule("b", &[("display", "inline", None)]),
    ];
    let mut page = Page::new(doc, 640, 480);
    page.refresh(&rules, &vec![]);
    let first: Vec<Vec<Option<i32>>> = page.layouts.iter().map(|l| l.values.clone()).collect();
    page.refresh(&rules, &vec![]);
    let second: Vec<Vec<Option<i32>>> = page.layouts.iter().map(|l| l.values.clone()).collect();
    assert_eq!(first, second);
    assert_eq!(page.layouts[a].get(LayoutValue::Height), Some(75));
}

#[test]
fn nodes_without_rules_get_no_style() {
    let mut doc = Document::new();
    doc.add_element(None, tag("div", None));
    let mut page = Page::new(doc, 10, 10);
    page.refresh(&vec![rule("other", &[("width", "1", Some(Unit::Px))])], &vec![]);
    assert!(page.styles[0].is_none());
    assert_eq!(page.display(0), None);
}

#[test]
fn pack_and_unpack_ids() {
    assert_eq!(pack_id_color(0x04030201), Rgba { r: 1, g: 2, b: 3, a: 4 });
    assert_eq!(unpack_id_color(Rgba { r: 1, g: 2, b: 3, a: 4 }), 0x04030201);
    assert_eq!(unpack_id_color(pack_id_color(123456789)), 123456789);
    assert_eq!(u32_from_bytes(&[1, 2, 3, 4, 9]), 0x01020304);
}

#[test]
fn hit_test_finds_the_painted_node() {
    let mut buf = IdBuffer::new(100, 100);
    buf.fill_rect(Rect { x: 10, y: 10, w: 40, h: 40 }, 7);
    assert_eq!(buf.query(20, 20), Some(7));
    assert_eq!(buf.query(49, 49), Some(7));
    assert_eq!(buf.query(50, 50), None);
    assert_eq!(buf.query(5, 5), None);
    assert_eq!(buf.query(-1, 20), None);
    assert_eq!(buf.query(100, 20), None);
}

#[test]
fn painting_a_page_stamps_each_box() {
    let mut doc = Document::new();
    let root = doc.add_element(None, tag("div", Some("root")));
    let rules = vec![rule("root", &[("display", "block", None), ("width", "60", Some(Unit::Px)), ("height", "60", Some(Unit::Px))])];
    let mut page = Page::new(doc, 100, 100);
    page.refresh(&rules, &vec![]);
    let buf = page.paint_ids();
    assert_eq!(buf.query(30, 30), Some(root as u32));
    assert_eq!(buf.query(70, 70), None);
}

#[test]
fn box_geometry_grows_by_padding_and_border() {
    let mut l = NodeLayoutInfo::new();
    for (slot, v) in [
        (LayoutValue::X, 5),
        (LayoutValue::Y, 6),
        (LayoutValue::Width, 100),
        (LayoutValue::Height, 50),
        (LayoutValue::PaddingLeft, 2),
        (LayoutValue::PaddingRight, 3),
        (LayoutValue::BorderTopWidth, 1),
        (LayoutValue::BorderTopLeftRadius, 4),
    ] {
        l.set(slot, Some(v));
    }
    let g = BoxGeometry::of(&l).unwrap();
    assert_eq!(g.full_width, 105);
    assert_eq!(g.full_height, 51);
    assert_eq!(g.left_offset, 4);
    assert_eq!(g.inner_width, 101);
    assert_eq!(g.inner_height, 47);
    let rects = g.id_rects();
    assert_eq!(rects[0], Rect { x: 9, y: 10, w: 101, h: 47 });
    let corner = yargl::paint::corner_rows(9, 10, 4);
    assert_eq!(corner.len(), 12);
    assert_eq!(rects.len(), 8 + corner.len());
    assert_eq!(rects[5..17].to_vec(), corner);
    let bands = g.border_rects();
    assert_eq!(bands[0], Rect { x: 9, y: 6, w: 101, h: 1 });
    assert_eq!(bands[2], Rect { x: 9, y: 57, w: 101, h: 0 });
    let mut missing = NodeLayoutInfo::new();
    missing.set(LayoutValue::X, Some(0));
    assert_eq!(BoxGeometry::of(&missing).unwrap_err().msg, "missing y");
}

#[test]
fn layout_slot_names() {
    assert!(matches!(LayoutValue::from_str("padding-top"), Ok(LayoutValue::PaddingTop)));
    assert!(LayoutValue::from_str("content-x").is_err());
    assert_eq!(LayoutValue::BorderBottomLeftRadius.to_string(), "border-bottom-left-radius");
    assert_eq!(LayoutValue::from_index(2), LayoutValue::Width);
    assert_eq!(LayoutValue::MaskedX.index(), 23);
    let mut l = NodeLayoutInfo::new();
    assert!(!l.is_complete());
    for i in 0..31 {
        l.set(LayoutValue::from_index(i), Some(1));
    }
    assert!(l.is_complete());
    assert!(l.is_set(LayoutValue::Y));
}
