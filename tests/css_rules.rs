use std::rc::Rc;

use yargl::css::{
    split_value, ComputedStyle, CssColor, Display, Number, Selector, Specificity, Style, Unit,
};
use yargl::sheet::{parse_tokens, trim_end_text, CssToken};

fn s(t: &str) -> String {
    t.to_string()
}

fn sel(tag: Option<&str>, classes: &[&str], id: Option<&str>) -> Selector {
    Selector::new(tag.map(s), classes.iter().map(|c| s(c)).collect(), id.map(s))
}

#[test]
fn specificity_orders_ids_then_classes_then_tags() {
    let a = Specificity { num_id: 1, num_class: 0, num_tag: 1 };
    let b = Specificity { num_id: 0, num_class: 2, num_tag: 0 };
    assert!(a > b);
    let c = Specificity { num_id: 0, num_class: 2, num_tag: 1 };
    assert!(a > c);
    assert!(c > b);
    let d = Specificity { num_id: 0, num_class: 2, num_tag: 1 };
    assert_eq!(c, d);
    assert!(b.add(&d) > c);
    let div_ab = sel(Some("div"), &["a", "b"], None).specificity();
    let hash_c = sel(None, &[], Some("c")).specificity();
    assert_eq!(div_ab, Specificity::new(0, 2, 1));
    assert_eq!(hash_c, Specificity::new(1, 0, 0));
    assert!(hash_c.greater_than(&div_ab));
    assert!(!div_ab.greater_than(&hash_c));
}

#[test]
fn specificity_counters() {
    let mut sp = Specificity::new(0, 0, 0);
    sp.add_id();
    sp.add_class();
    sp.add_classes(3);
    sp.add_tag();
    assert_eq!(sp, Specificity::new(1, 4, 1));
}

#[test]
fn selector_specificity() {
    assert_eq!(sel(None, &["a", "b"], None).specificity(), Specificity::new(0, 2, 0));
    assert_eq!(sel(Some("div"), &["a", "b"], None).specificity(), Specificity::new(0, 2, 1));
    assert_eq!(sel(Some("div"), &["a", "b"], Some("c")).specificity(), Specificity::new(1, 2, 1));
}

#[test]
fn selector_text() {
    assert_eq!(sel(None, &["a", "b"], None).to_string(), ".a.b");
    assert_eq!(sel(Some("div"), &["a", "b"], None).to_string(), "div.a.b");
    assert_eq!(sel(Some("div"), &["a", "b"], Some("c")).to_string(), "div.a.b#c");
    assert_eq!(sel(None, &[], None).to_string(), "");
}

#[test]
fn selector_matching_is_directional() {
    let rule = sel(Some("div"), &["a"], None);
    assert!(rule.matches(&sel(Some("div"), &["a", "b"], None)));
    assert!(!rule.matches(&sel(Some("span"), &["a", "b"], None)));
    assert!(!rule.matches(&sel(Some("div"), &["b"], None)));
    assert!(sel(None, &[], Some("x")).matches(&sel(Some("p"), &[], Some("x"))));
    assert!(!sel(None, &[], Some("x")).matches(&sel(Some("p"), &[], Some("y"))));
    assert!(!sel(Some("div"), &["a", "b"], None).matches(&sel(Some("div"), &["a"], None)));
}

#[test]
fn class_attribute_is_split_on_spaces() {
    let node = Selector::from_attributes(Some(s("div")), "  a b  c ", Some(s("main")));
    assert_eq!(node.class_list, vec![s("a"), s("b"), s("c")]);
    assert_eq!(node.tag_name, Some(s("div")));
    assert_eq!(node.id, Some(s("main")));
    let none = Selector::from_attributes(None, "", None);
    assert!(none.class_list.is_empty());
}

#[test]
fn unit_keywords() {
    assert_eq!(Unit::from_str("px").unwrap(), Unit::Px);
    assert_eq!(Unit::from_str("%").unwrap(), Unit::Percent);
    assert_eq!(Unit::from_str("Q").unwrap(), Unit::Q);
    let err = Unit::from_str("furlong").unwrap_err();
    assert_eq!(err.css, "furlong");
    assert_eq!(Unit::Vmin.to_string(), "vmin");
    assert_eq!(Display::from_str("inline-block").unwrap(), Display::InlineBlock);
    assert_eq!(Display::parse("none"), Some(Display::Hidden));
    assert_eq!(Display::parse("table"), None);
    assert!(Display::from_str("table").is_err());
    assert_eq!(Display::Hidden.to_string(), "none");
}

#[test]
fn values_split_into_number_and_unit() {
    let (t, u) = split_value("100px");
    assert_eq!((t.as_str(), u), ("100", Some(Unit::Px)));
    let (t, u) = split_value("2vmin");
    assert_eq!((t.as_str(), u), ("2", Some(Unit::Vmin)));
    let (t, u) = split_value("50%");
    assert_eq!((t.as_str(), u), ("50", Some(Unit::Percent)));
    let (t, u) = split_value("block");
    assert_eq!((t.as_str(), u), ("block", None));
}

#[test]
fn numbers_are_read_as_decimals() {
    assert_eq!(Number::parse("12.5"), Some(Number { mantissa: 125, den: 10 }));
    assert_eq!(Number::parse("-3"), Some(Number { mantissa: -3, den: 1 }));
    assert_eq!(Number::parse("+.5"), Some(Number { mantissa: 5, den: 10 }));
    assert_eq!(Number::parse("1.2.3"), None);
    assert_eq!(Number::parse(""), None);
    assert_eq!(Number::parse("abc"), None);
    assert_eq!(Number::parse("12345678901234567890"), None);
    let n = Number::parse("1.5").unwrap();
    assert_eq!(n.scale(16, 1), 24);
    let cm = Number::from_int(1);
    assert_eq!(cm.scale(4800, 127), 37);
    assert_eq!(Number::parse("-1.5").unwrap().scale(1, 1), -1);
    assert_eq!(Number::from_int(i32::MAX).scale(96, 1), i32::MAX);
}

#[test]
fn style_values() {
    let mut style = Style::new(vec![sel(Some("div"), &[], None)]);
    style.set_value("width", "100", Some(Unit::Px));
    style.set_value("font-size", "20", Some(Unit::Px));
    style.set_value("height", "100", Some(Unit::Percent));
    style.set_value("color", "#ff0000", None);
    assert_eq!(style.get_number("width"), (Some(Number { mantissa: 100, den: 1 }), Some(Unit::Px)));
    assert_eq!(style.get_number("height"), (Some(Number { mantissa: 100, den: 1 }), Some(Unit::Percent)));
    assert_eq!(style.get_number("margin-top"), (None, None));
    let (color, unit) = style.get_value("color");
    assert_eq!(unit, None);
    assert_eq!(CssColor::from_str(&color.unwrap()).unwrap(), CssColor { r: 255, g: 0, b: 0, a: 255 });
    style.set_value("width", "7", Some(Unit::Em));
    assert_eq!(style.get_raw("width"), Some(s("7em")));
    assert_eq!(style.get_raw("font-size"), Some(s("20px")));
}

#[test]
fn colors() {
    assert_eq!(CssColor::from_str("#ff00ff").unwrap(), CssColor { r: 255, g: 0, b: 255, a: 255 });
    assert_eq!(CssColor::from_str("#000000").unwrap(), CssColor { r: 0, g: 0, b: 0, a: 255 });
    assert_eq!(CssColor::from_str("#fa017f").unwrap(), CssColor { r: 250, g: 1, b: 127, a: 255 });
    assert!(CssColor::from_str("#fff").is_err());
    assert!(CssColor::from_str("ff00ff0").is_err());
    assert_eq!(CssColor::from_str("#gg0000").unwrap_err().css, "#gg0000");
}

#[test]
fn computed_style_keeps_higher_specificity() {
    let mut style1 = Style::new(vec![sel(Some("div"), &["a"], None), sel(None, &[], Some("b"))]);
    style1.set_value("width", "100", Some(Unit::Px));
    style1.set_value("font-size", "20", Some(Unit::Px));
    style1.set_value("height", "100", Some(Unit::Percent));
    let style1 = Rc::new(style1);
    let mut style2 = Style::new(vec![sel(Some("div"), &["a"], Some("d"))]);
    style2.set_value("width", "200", Some(Unit::Px));
    let style2 = Rc::new(style2);
    let mut computed = ComputedStyle::new(sel(Some("div"), &["a"], Some("d")));
    computed.apply_style(style1.clone(), &style1.selectors[0].specificity());
    assert_eq!(computed.get_number("width"), (Some(Number { mantissa: 100, den: 1 }), Some(Unit::Px)));
    assert_eq!(computed.get_number("font-size"), (Some(Number { mantissa: 20, den: 1 }), Some(Unit::Px)));
    computed.apply_style(style2.clone(), &style2.selectors[0].specificity());
    assert_eq!(computed.get_number("width"), (Some(Number { mantissa: 200, den: 1 }), Some(Unit::Px)));
    let (h, u) = computed.get_value("height");
    assert_eq!((h.unwrap().as_str(), u), ("100", Some(Unit::Percent)));
    assert_eq!(computed.selector().id, Some(s("d")));
}

#[test]
fn equal_specificity_keeps_the_first_rule() {
    let mut first = Style::new(vec![sel(Some("div"), &[], None)]);
    first.set_value("width", "10", Some(Unit::Px));
    let mut second = Style::new(vec![sel(Some("div"), &[], None)]);
    second.set_value("width", "20", Some(Unit::Px));
    let mut computed = ComputedStyle::new(sel(Some("div"), &[], None));
    let sp = Specificity::new(0, 0, 1);
    computed.apply_style(Rc::new(first), &sp);
    computed.apply_style(Rc::new(second), &sp);
    assert_eq!(computed.get_number("width").0, Some(Number { mantissa: 10, den: 1 }));
}

fn ident(t: &str) -> CssToken {
    CssToken::Ident(s(t))
}

fn ws() -> CssToken {
    CssToken::WhiteSpace(s(" "))
}

#[test]
fn tokens_make_rules() {
    // div.a, #b { width: 100px; color: #ff0000 }
    let tokens = vec![
        ident("div"),
        CssToken::Delim('.'),
        ident("a"),
        CssToken::Comma,
        ws(),
        CssToken::IdHash(s("b")),
        ws(),
        CssToken::BlockStart,
        ws(),
        ident("width"),
        CssToken::Colon,
        ws(),
        CssToken::Dimension(s("100"), s("px")),
        CssToken::Semicolon,
        ws(),
        ident("color"),
        CssToken::Colon,
        ws(),
        CssToken::IdHash(s("ff0000")),
        ws(),
        CssToken::BlockEnd,
        ws(),
        ident("p"),
        CssToken::BlockStart,
        ident("margin-top"),
        CssToken::Colon,
        CssToken::Percentage(s("5")),
        CssToken::Semicolon,
    ];
    let sheet = parse_tokens(&tokens).unwrap();
    assert_eq!(sheet.len(), 2);
    assert_eq!(sheet[0].selectors, vec![sel(Some("div"), &["a"], None), sel(None, &[], Some("b"))]);
    assert_eq!(sheet[0].get_raw("width"), Some(s("100px")));
    assert_eq!(sheet[0].get_raw("color"), None);
    assert_eq!(sheet[1].selectors, vec![sel(Some("p"), &[], None)]);
    assert_eq!(sheet[1].get_raw("margin-top"), Some(s("5%")));
}

#[test]
fn stray_close_brace_is_an_error() {
    let err = parse_tokens(&vec![ident("div"), CssToken::CloseCurly]).unwrap_err();
    assert_eq!(err.css, "}");
    assert_eq!(err.message, "Unexpected token");
    let err = parse_tokens(&vec![CssToken::BadString(s("oops"))]).unwrap_err();
    assert_eq!(err.css, "oops");
    let err = parse_tokens(&vec![CssToken::BlockStart, CssToken::BadString(s("x"))]).unwrap_err();
    assert_eq!(err.message, "Error inside style block");
}

#[test]
fn trailing_white_space_is_trimmed() {
    assert_eq!(trim_end_text("12px \t\n"), "12px");
    assert_eq!(trim_end_text("   "), "");
    assert_eq!(trim_end_text("a b"), "a b");
}

#[test]
fn computed_style_as_text() {
    let mut style = Style::new(vec![sel(Some("div"), &["a"], None)]);
    style.set_value("width", "10", Some(Unit::Px));
    style.set_value("display", "block", None);
    let mut computed = ComputedStyle::new(sel(Some("div"), &["a", "b"], Some("x")));
    computed.apply_style(Rc::new(style), &Specificity::new(0, 1, 1));
    assert_eq!(computed.to_string(), "div.a.b#x {\n\twidth: 10px;\n\tdisplay: block;\n}");
    assert_eq!(ComputedStyle::new(sel(None, &[], None)).to_string(), " {\n}");
}
