use std::rc::Rc;
use vstd::prelude::*;
use crate::css::{lookup, CssParseError, Selector, SelectorView, Style};
use crate::text::slice_text;

verus! {

/// A token of style-sheet text, as the tokenizer hands it over. A
/// declaration block comes as `BlockStart`, its tokens, then `BlockEnd`;
/// blocks nested inside it come as `Other`.
#[derive(Debug, Clone)]
pub enum CssToken {
    Ident(String),
    Delim(char),
    IdHash(String),
    Hash(String),
    Comma,
    Colon,
    Semicolon,
    /// A number, as written.
    Number(String),
    /// A number and its unit.
    Dimension(String, String),
    /// A percentage's number, as written.
    Percentage(String),
    QuotedString(String),
    WhiteSpace(String),
    BlockStart,
    BlockEnd,
    /// A `}` outside any block.
    CloseCurly,
    BadString(String),
    Other,
}

pub open spec fn is_space(c: char) -> bool {
    c == ' ' || c == '\t' || c == '\n' || c == '\r' || c == '\x0C'
}

/// `s` without its trailing white space.
pub open spec fn trim_end_spec(s: Seq<char>) -> Seq<char>
    decreases s.len(),
{
    if s.len() > 0 && is_space(s.last()) {
        trim_end_spec(s.drop_last())
    } else {
        s
    }
}

/// A rule as it is read: its selectors and its property values.
pub struct RuleModel {
    pub selectors: Seq<SelectorView>,
    pub props: Map<Seq<char>, Seq<char>>,
}

/// Where reading a style sheet stands.
pub struct SheetModel {
    pub sheet: Seq<RuleModel>,
    pub selectors: Seq<SelectorView>,
    pub cur: SelectorView,
    pub expect_class: bool,
    pub in_block: bool,
    pub rule: RuleModel,
    pub name: Seq<char>,
    pub value: Seq<char>,
    pub in_value: bool,
    pub error: Option<(Seq<char>, Seq<char>)>,
}

pub open spec fn empty_selector() -> SelectorView {
    SelectorView { tag: None, classes: Seq::empty(), id: None }
}

pub open spec fn sheet_start() -> SheetModel {
    SheetModel {
        sheet: Seq::empty(),
        selectors: Seq::empty(),
        cur: empty_selector(),
        expect_class: false,
        in_block: false,
        rule: RuleModel { selectors: Seq::empty(), props: Map::empty() },
        name: Seq::empty(),
        value: Seq::empty(),
        in_value: false,
        error: None,
    }
}

/// One token outside a block: identifiers, dots and hashes build the
/// current selector (a dot makes the next identifier a class), a comma ends
/// a selector, and a block start ends the selector list and opens a rule.
pub open spec fn top_step(m: SheetModel, t: CssToken) -> SheetModel {
    match t {
        CssToken::Ident(s) => if m.expect_class {
            SheetModel { cur: SelectorView { classes: m.cur.classes.push(s@), ..m.cur }, expect_class: false, ..m }
        } else if m.cur.tag is None {
            SheetModel { cur: SelectorView { tag: Some(s@), ..m.cur }, ..m }
        } else {
            m
        },
        CssToken::Delim(_) => SheetModel { expect_class: true, ..m },
        CssToken::IdHash(s) => if m.cur.id is None {
            SheetModel { cur: SelectorView { id: Some(s@), ..m.cur }, ..m }
        } else {
            m
        },
        CssToken::Comma => SheetModel { selectors: m.selectors.push(m.cur), cur: empty_selector(), ..m },
        CssToken::BlockStart => SheetModel {
            rule: RuleModel { selectors: m.selectors.push(m.cur), props: Map::empty() },
            selectors: Seq::empty(),
            cur: empty_selector(),
            in_block: true,
            name: Seq::empty(),
            value: Seq::empty(),
            in_value: false,
            ..m
        },
        CssToken::CloseCurly => SheetModel { error: Some(("}"@, "Unexpected token"@)), ..m },
        CssToken::BadString(s) => SheetModel { error: Some((s@, "Bad string"@)), ..m },
        _ => m,
    }
}

/// One token inside a block: identifiers before a colon make the property
/// name, what follows the colon makes its value, and a semicolon stores the
/// value, trailing white space removed, under the name.
pub open spec fn block_step(m: SheetModel, t: CssToken) -> SheetModel {
    match t {
        CssToken::Ident(s) => if m.in_value {
            SheetModel { value: m.value + s@, ..m }
        } else {
            SheetModel { name: m.name + s@, ..m }
        },
        CssToken::Colon => SheetModel { in_value: true, ..m },
        CssToken::Comma => if m.in_value {
            SheetModel { value: m.value + ","@, ..m }
        } else {
            m
        },
        CssToken::Dimension(n, u) => SheetModel { value: m.value + n@ + u@, ..m },
        CssToken::Percentage(n) => SheetModel { value: m.value + n@ + "%"@, ..m },
        CssToken::Number(n) => SheetModel { value: m.value + n@, ..m },
        CssToken::IdHash(h) => SheetModel { value: m.value + "#"@ + h@, ..m },
        CssToken::Hash(h) => SheetModel { value: m.value + "#"@ + h@, ..m },
        CssToken::QuotedString(s) => SheetModel { value: m.value + s@, ..m },
        CssToken::WhiteSpace(w) => if m.in_value && m.value.len() > 0 {
            SheetModel { value: m.value + w@, ..m }
        } else {
            m
        },
        CssToken::Semicolon => SheetModel {
            rule: RuleModel { props: m.rule.props.insert(m.name, trim_end_spec(m.value)), ..m.rule },
            in_value: false,
            name: Seq::empty(),
            value: Seq::empty(),
            ..m
        },
        CssToken::BadString(_) => SheetModel { error: Some(("{"@, "Error inside style block"@)), ..m },
        CssToken::BlockEnd => SheetModel {
            sheet: m.sheet.push(m.rule),
            rule: RuleModel { selectors: Seq::empty(), props: Map::empty() },
            in_block: false,
            ..m
        },
        _ => m,
    }
}

pub open spec fn sheet_step(m: SheetModel, t: CssToken) -> SheetModel {
    if m.error is Some {
        m
    } else if m.in_block {
        block_step(m, t)
    } else {
        top_step(m, t)
    }
}

pub open spec fn sheet_scan(tokens: Seq<CssToken>) -> SheetModel
    decreases tokens.len(),
{
    if tokens.len() == 0 {
        sheet_start()
    } else {
        sheet_step(sheet_scan(tokens.drop_last()), tokens.last())
    }
}

/// The rules a token stream makes; a block still open at the end is
/// closed.
pub open spec fn sheet_rules(tokens: Seq<CssToken>) -> Seq<RuleModel> {
    let m = sheet_scan(tokens);
    if m.in_block {
        m.sheet.push(m.rule)
    } else {
        m.sheet
    }
}

/// Whether a rule holds what a rule model says.
pub open spec fn rule_is(s: Style, r: RuleModel) -> bool {
    &&& s.selectors@.map_values(|x: Selector| x@) == r.selectors
    &&& forall|k: Seq<char>| #[trigger] s.raw(k) == if r.props.contains_key(k) {
        Some(r.props[k])
    } else {
        None
    }
}

pub open spec fn sheet_is(sheet: Seq<Rc<Style>>, rules: Seq<RuleModel>) -> bool {
    &&& sheet.len() == rules.len()
    &&& forall|i: int| 0 <= i < sheet.len() ==> rule_is(*#[trigger] sheet[i], rules[i])
}

/// `s` without its trailing white space.
pub fn trim_end_text(s: &str) -> (r: String)
    ensures
        r@ == trim_end_spec(s@),
{
    let mut n = s.unicode_len();
    let mut done = false;
    assert(s@.subrange(0, n as int) =~= s@);
    while n > 0 && !done
        invariant
            n <= s@.len(),
            trim_end_spec(s@) == trim_end_spec(s@.subrange(0, n as int)),
            done ==> trim_end_spec(s@.subrange(0, n as int)) == s@.subrange(0, n as int),
        decreases n + (if done { 0int } else { 1int }),
    {
        let c = s.get_char(n - 1);
        if !(c == ' ' || c == '\t' || c == '\n' || c == '\r' || c == '\x0C') {
            assert(s@.subrange(0, n as int).last() == c);
            done = true;
        } else {
            assert(s@.subrange(0, n as int).drop_last() =~= s@.subrange(0, n - 1));
            n -= 1;
        }
    }
    if n == 0 {
        assert(s@.subrange(0, 0) =~= Seq::<char>::empty());
    }
    slice_text(s, 0, n)
}

fn empty_selector_value() -> (r: Selector)
    ensures
        r@ == empty_selector(),
{
    let r = Selector { tag_name: None, class_list: Vec::new(), id: None };
    assert(r@.classes =~= Seq::<Seq<char>>::empty());
    r
}

proof fn lemma_error_stays(tokens: Seq<CssToken>, k: int)
    requires
        0 <= k <= tokens.len(),
        sheet_scan(tokens.subrange(0, k)).error is Some,
    ensures
        sheet_scan(tokens).error == sheet_scan(tokens.subrange(0, k)).error,
    decreases tokens.len() - k,
{
    if k < tokens.len() {
        assert(tokens.subrange(0, k + 1).drop_last() =~= tokens.subrange(0, k));
        lemma_error_stays(tokens, k + 1);
    } else {
        assert(tokens.subrange(0, k) =~= tokens);
    }
}

/// Reads style rules from a token stream. A stray `}` or a bad string ends
/// reading with an error; otherwise each block makes one rule, with the
/// selectors before it.
pub fn parse_tokens(tokens: &Vec<CssToken>) -> (r: Result<Vec<Rc<Style>>, CssParseError>)
    ensures
        match r {
            Ok(sheet) => sheet_scan(tokens@).error is None && sheet_is(sheet@, sheet_rules(tokens@)),
            Err(e) => sheet_scan(tokens@).error == Some((e.css@, e.message@)),
        },
{
    let mut sheet: Vec<Rc<Style>> = Vec::new();
    let mut selectors: Vec<Selector> = Vec::new();
    let mut cur = empty_selector_value();
    let mut expect_class = false;
    let mut in_block = false;
    let mut rule = Style::new(Vec::new());
    let mut name = String::new();
    let mut value = String::new();
    let mut in_value = false;
    let mut i: usize = 0;
    assert(tokens@.subrange(0, 0) =~= Seq::<CssToken>::empty());
    assert(rule.selectors@.map_values(|x: Selector| x@) =~= Seq::<SelectorView>::empty());
    assert(selectors@.map_values(|x: Selector| x@) =~= Seq::<SelectorView>::empty());
    while i < tokens.len()
        invariant
            i <= tokens@.len(),
            ({
                let m = sheet_scan(tokens@.subrange(0, i as int));
                &&& m.error is None
                &&& sheet_is(sheet@, m.sheet)
                &&& selectors@.map_values(|x: Selector| x@) == m.selectors
                &&& cur@ == m.cur
                &&& expect_class == m.expect_class
                &&& in_block == m.in_block
                &&& rule_is(rule, m.rule)
                &&& name@ == m.name
                &&& value@ == m.value
                &&& in_value == m.in_value
            }),
        decreases tokens@.len() - i,
    {
        let ghost m = sheet_scan(tokens@.subrange(0, i as int));
        let ghost t = tokens@[i as int];
        proof {
            assert(tokens@.subrange(0, i + 1).drop_last() =~= tokens@.subrange(0, i as int));
        }
        let ghost next = sheet_step(m, t);
        assert(sheet_scan(tokens@.subrange(0, i + 1)) == next);
        if !in_block {
            match &tokens[i] {
                CssToken::Ident(s) => {
                    if expect_class {
                        let ghost before = cur.class_list@;
                        cur.class_list.push(s.clone());
                        assert(cur.class_list@.map_values(|c: String| c@) =~= before.map_values(|c: String| c@).push(s@));
                        expect_class = false;
                    } else if cur.tag_name.is_none() {
                        cur.tag_name = Some(s.clone());
                    }
                },
                CssToken::Delim(_) => {
                    expect_class = true;
                },
                CssToken::IdHash(s) => {
                    if cur.id.is_none() {
                        cur.id = Some(s.clone());
                    }
                },
                CssToken::Comma => {
                    let ghost before = selectors@;
                    let done = cur;
                    let ghost dv = done@;
                    selectors.push(done);
                    assert(selectors@.map_values(|x: Selector| x@) =~= before.map_values(|x: Selector| x@).push(dv));
                    cur = empty_selector_value();
                },
                CssToken::BlockStart => {
                    let ghost before = selectors@;
                    let done = cur;
                    let ghost dv = done@;
                    selectors.push(done);
                    assert(selectors@.map_values(|x: Selector| x@) =~= before.map_values(|x: Selector| x@).push(dv));
                    let list = selectors;
                    rule = Style::new(list);
                    assert forall|k: Seq<char>| #[trigger] rule.raw(k) is None by {
                        assert(rule.props().len() == 0);
                    }
                    selectors = Vec::new();
                    assert(selectors@.map_values(|x: Selector| x@) =~= Seq::<SelectorView>::empty());
                    cur = empty_selector_value();
                    in_block = true;
                    name = String::new();
                    value = String::new();
                    in_value = false;
                },
                CssToken::CloseCurly => {
                    proof {
                        lemma_error_stays(tokens@, i + 1);
                    }
                    return Err(CssParseError { css: String::from_str("}"), message: String::from_str("Unexpected token") });
                },
                CssToken::BadString(s) => {
                    proof {
                        lemma_error_stays(tokens@, i + 1);
                    }
                    return Err(CssParseError { css: s.clone(), message: String::from_str("Bad string") });
                },
                _ => {},
            }
        } else {
            match &tokens[i] {
                CssToken::Ident(s) => {
                    if in_value {
                        value.append(s.as_str());
                    } else {
                        name.append(s.as_str());
                    }
                },
                CssToken::Colon => {
                    in_value = true;
                },
                CssToken::Comma => {
                    if in_value {
                        value.append(",");
                    }
                },
                CssToken::Dimension(n, u) => {
                    value.append(n.as_str());
                    value.append(u.as_str());
                },
                CssToken::Percentage(n) => {
                    value.append(n.as_str());
                    value.append("%");
                },
                CssToken::Number(n) => {
                    value.append(n.as_str());
                },
                CssToken::IdHash(h) => {
                    value.append("#");
                    value.append(h.as_str());
                },
                CssToken::Hash(h) => {
                    value.append("#");
                    value.append(h.as_str());
                },
                CssToken::QuotedString(q) => {
                    value.append(q.as_str());
                },
                CssToken::WhiteSpace(w) => {
                    if in_value && value.unicode_len() > 0 {
                        value.append(w.as_str());
                    }
                },
                CssToken::Semicolon => {
                    let trimmed = trim_end_text(value.as_str());
                    let ghost old_rule = rule;
                    rule.set_value(name.as_str(), trimmed.as_str(), None);
                    assert(trimmed@ + Seq::<char>::empty() =~= trimmed@);
                    assert forall|k: Seq<char>| #[trigger] rule.raw(k) == if next.rule.props.contains_key(k) {
                        Some(next.rule.props[k])
                    } else {
                        None
                    } by {
                        if k != name@ {
                            assert(rule.raw(k) == old_rule.raw(k));
                        }
                    }
                    in_value = false;
                    name = String::new();
                    value = String::new();
                },
                CssToken::BadString(_) => {
                    proof {
                        lemma_error_stays(tokens@, i + 1);
                    }
                    return Err(CssParseError { css: String::from_str("{"), message: String::from_str("Error inside style block") });
                },
                CssToken::BlockEnd => {
                    let done = rule;
                    let ghost before = sheet@;
                    sheet.push(Rc::new(done));
                    assert(sheet_is(sheet@, next.sheet)) by {
                        assert forall|j: int| 0 <= j < sheet@.len() implies rule_is(*#[trigger] sheet@[j], next.sheet[j]) by {
                            if j < before.len() {
                                assert(sheet@[j] == before[j]);
                            }
                        }
                    }
                    rule = Style::new(Vec::new());
                    assert(rule.selectors@.map_values(|x: Selector| x@) =~= Seq::<SelectorView>::empty());
                    assert forall|k: Seq<char>| #[trigger] rule.raw(k) is None by {
                        assert(rule.props().len() == 0);
                    }
                    in_block = false;
                },
                _ => {},
            }
        }
        i += 1;
    }
    assert(tokens@.subrange(0, tokens@.len() as int) =~= tokens@);
    if in_block {
        let ghost m = sheet_scan(tokens@);
        let ghost before = sheet@;
        sheet.push(Rc::new(rule));
        assert(sheet_is(sheet@, m.sheet.push(m.rule))) by {
            assert forall|j: int| 0 <= j < sheet@.len() implies rule_is(*#[trigger] sheet@[j], m.sheet.push(m.rule)[j]) by {
                if j < before.len() {
                    assert(sheet@[j] == before[j]);
                }
            }
        }
    }
    Ok(sheet)
}

} // verus!
