use taplo::node::{
    ArrayNode, BoolNode, DateNode, EntryNode, FloatNode, IntegerNode, IntegerRepr, StringKind,
    StringNode, TableNode, ValueNode,
};
use taplo::range::TextRange;
use taplo::root::Node;
use taplo::syntax::{SyntaxElement, SyntaxKind};
use taplo::traits::{Cast, Common};

fn token(kind: SyntaxKind, text: &str, start: u32) -> SyntaxElement {
    SyntaxElement::token(kind, TextRange::new(start, start + text.len() as u32), text)
}

fn node(kind: SyntaxKind, children: Vec<SyntaxElement>) -> SyntaxElement {
    let start = children.first().map(|c| c.range.start()).unwrap_or(0);
    let end = children.last().map(|c| c.range.end()).unwrap_or(start);
    SyntaxElement::node(kind, TextRange::new(start, end), children)
}

fn value(inner: SyntaxElement) -> SyntaxElement {
    node(SyntaxKind::VALUE, vec![inner])
}

fn key(name: &str, start: u32) -> SyntaxElement {
    node(SyntaxKind::KEY, vec![token(SyntaxKind::IDENT, name, start)])
}

// `name = <inner>` at offset `start`.
fn entry(name: &str, inner: SyntaxElement, start: u32) -> SyntaxElement {
    let n = name.len() as u32;
    node(
        SyntaxKind::ENTRY,
        vec![
            key(name, start),
            token(SyntaxKind::WHITESPACE, " ", start + n),
            token(SyntaxKind::EQ, "=", start + n + 1),
            token(SyntaxKind::WHITESPACE, " ", start + n + 2),
            value(inner),
        ],
    )
}

fn content(kind: SyntaxKind, text: &str) -> Option<String> {
    StringNode::cast(&token(kind, text, 0)).map(|s| s.into_content())
}

#[test]
fn integers_record_how_they_were_written() {
    for (kind, text, repr) in [
        (SyntaxKind::INTEGER, "42", IntegerRepr::Dec),
        (SyntaxKind::INTEGER_BIN, "0b101", IntegerRepr::Bin),
        (SyntaxKind::INTEGER_OCT, "0o17", IntegerRepr::Oct),
        (SyntaxKind::INTEGER_HEX, "0xff", IntegerRepr::Hex),
    ] {
        let n = IntegerNode::cast(&token(kind, text, 3)).unwrap();
        assert_eq!(n.repr(), repr);
        assert_eq!(n.syntax.text, text);
        assert_eq!(n.syntax.kind, kind);
        assert_eq!(n.text_range().start(), 3);
        assert_eq!(n.text_range().end(), 3 + text.len() as u32);
    }
    assert!(IntegerNode::cast(&token(SyntaxKind::FLOAT, "1.0", 0)).is_none());
    assert!(IntegerNode::cast(&token(SyntaxKind::STRING, "\"1\"", 0)).is_none());
}

#[test]
fn strings_lose_their_delimiters() {
    assert_eq!(content(SyntaxKind::STRING, "\"abc\"").unwrap(), "abc");
    assert_eq!(content(SyntaxKind::STRING, "\"\"").unwrap(), "");
    assert_eq!(content(SyntaxKind::STRING_LITERAL, "'a\\nb'").unwrap(), "a\\nb");
    assert_eq!(content(SyntaxKind::MULTI_LINE_STRING, "\"\"\"abc\"\"\"").unwrap(), "abc");
    assert_eq!(content(SyntaxKind::MULTI_LINE_STRING_LITERAL, "'''a'b'''").unwrap(), "a'b");
    assert!(content(SyntaxKind::INTEGER, "12").is_none());
}

#[test]
fn strings_record_their_kind() {
    for (kind, text, want) in [
        (SyntaxKind::STRING, "\"a\"", StringKind::Basic),
        (SyntaxKind::MULTI_LINE_STRING, "\"\"\"a\"\"\"", StringKind::MultiLine),
        (SyntaxKind::STRING_LITERAL, "'a'", StringKind::Literal),
        (SyntaxKind::MULTI_LINE_STRING_LITERAL, "'''a'''", StringKind::MultiLineLiteral),
    ] {
        let s = StringNode::cast(&token(kind, text, 5)).unwrap();
        assert_eq!(s.string_kind(), want);
        assert_eq!(s.content(), "a");
        assert_eq!(s.text_range().start(), 5);
    }
}

#[test]
fn multi_line_strings_drop_one_leading_line_end() {
    assert_eq!(content(SyntaxKind::MULTI_LINE_STRING, "\"\"\"\nabc\n\"\"\"").unwrap(), "abc\n");
    assert_eq!(content(SyntaxKind::MULTI_LINE_STRING, "\"\"\"\n\nabc\"\"\"").unwrap(), "\nabc");
    assert_eq!(
        content(SyntaxKind::MULTI_LINE_STRING_LITERAL, "'''\nC:\\dir\n'''").unwrap(),
        "C:\\dir\n"
    );
    // A single-line string keeps it.
    assert_eq!(content(SyntaxKind::STRING_LITERAL, "'\nx'").unwrap(), "\nx");
}

#[test]
fn basic_strings_are_unescaped() {
    assert_eq!(content(SyntaxKind::STRING, "\"a\\tb\\u0041\"").unwrap(), "a\tbA");
    assert_eq!(content(SyntaxKind::MULTI_LINE_STRING, "\"\"\"a\\\n   b\"\"\"").unwrap(), "ab");
    assert!(content(SyntaxKind::STRING, "\"bad \\x\"").is_none());
    assert!(content(SyntaxKind::MULTI_LINE_STRING, "\"\"\"\\u12\"\"\"").is_none());
}

#[test]
fn primitives_keep_their_handle() {
    let b = BoolNode::cast(&token(SyntaxKind::BOOL, "true", 2)).unwrap();
    assert_eq!(b.syntax.text, "true");
    assert_eq!((b.text_range().start(), b.text_range().end()), (2, 6));
    assert!(BoolNode::cast(&token(SyntaxKind::FLOAT, "1.5", 0)).is_none());
    let f = FloatNode::cast(&token(SyntaxKind::FLOAT, "1.5", 0)).unwrap();
    assert_eq!(f.syntax.text, "1.5");
    assert!(FloatNode::cast(&token(SyntaxKind::DATE, "1979-05-27", 0)).is_none());
    let d = DateNode::cast(&token(SyntaxKind::DATE, "1979-05-27", 0)).unwrap();
    assert_eq!(d.syntax.kind, SyntaxKind::DATE);
    assert!(DateNode::cast(&token(SyntaxKind::BOOL, "true", 0)).is_none());
}

#[test]
fn values_are_cast_from_value_nodes() {
    let v = ValueNode::cast(&value(token(SyntaxKind::INTEGER, "7", 0))).unwrap();
    assert!(matches!(v, ValueNode::Integer(_)));
    assert!(v.is_valid());
    assert!(ValueNode::cast(&token(SyntaxKind::INTEGER, "7", 0)).is_none());
    let v = ValueNode::cast(&value(token(SyntaxKind::BOOL, "false", 0))).unwrap();
    assert!(matches!(v, ValueNode::Bool(_)));
    let v = ValueNode::cast(&value(token(SyntaxKind::FLOAT, "0.5", 0))).unwrap();
    assert!(matches!(v, ValueNode::Float(_)));
    let v = ValueNode::cast(&value(token(SyntaxKind::DATE, "1979-05-27", 0))).unwrap();
    assert!(matches!(v, ValueNode::Date(_)));
    let v = ValueNode::cast(&value(token(SyntaxKind::STRING, "\"s\"", 0))).unwrap();
    assert!(matches!(v, ValueNode::String(_)));
}

#[test]
fn values_that_cannot_be_lifted_are_invalid() {
    let bad = value(token(SyntaxKind::STRING, "\"\\q\"", 4));
    match ValueNode::cast(&bad).unwrap() {
        ValueNode::Invalid(Some(h)) => {
            assert_eq!(h.kind, SyntaxKind::VALUE);
            assert_eq!((h.range.start(), h.range.end()), (4, 8));
            assert_eq!(h.text, "\"\\q\"");
        }
        other => panic!("unexpected value {:?}", other),
    }
    let odd = value(token(SyntaxKind::ERROR, "?", 0));
    let v = ValueNode::cast(&odd).unwrap();
    assert!(matches!(v, ValueNode::Invalid(Some(_))));
    assert!(!v.is_valid());
    assert_eq!(v.text_range().end(), 1);
    let hollow = node(SyntaxKind::VALUE, Vec::new());
    assert!(matches!(ValueNode::cast(&hollow).unwrap(), ValueNode::Invalid(Some(_))));
    assert!(!ValueNode::default().is_valid());
    assert!(matches!(ValueNode::default(), ValueNode::Empty));
}

#[test]
fn arrays_hold_the_values_among_their_children() {
    let a = node(
        SyntaxKind::ARRAY,
        vec![
            token(SyntaxKind::BRACKET_START, "[", 0),
            value(token(SyntaxKind::INTEGER, "1", 1)),
            token(SyntaxKind::COMMA, ",", 2),
            value(token(SyntaxKind::STRING, "\"\\q\"", 3)),
            token(SyntaxKind::INTEGER, "9", 7),
            value(token(SyntaxKind::BOOL, "true", 8)),
            token(SyntaxKind::BRACKET_END, "]", 12),
        ],
    );
    let array = ArrayNode::cast(&a).unwrap();
    assert!(!array.is_array_of_tables());
    assert_eq!(array.items().len(), 3);
    assert!(matches!(array.items()[0], ValueNode::Integer(_)));
    assert!(matches!(array.items()[1], ValueNode::Invalid(_)));
    assert!(matches!(array.items()[2], ValueNode::Bool(_)));
    assert_eq!((array.text_range().start(), array.text_range().end()), (0, 13));
    assert!(ArrayNode::cast(&token(SyntaxKind::INTEGER, "1", 0)).is_none());
    let header = node(SyntaxKind::TABLE_ARRAY_HEADER, vec![key("x", 2)]);
    assert!(ArrayNode::cast(&header).unwrap().into_items().is_empty());
}

#[test]
fn entries_have_a_key_and_a_value() {
    let e = EntryNode::cast(&entry("size", token(SyntaxKind::INTEGER, "80", 7), 0)).unwrap();
    assert_eq!(e.key().full_key_string(), "size");
    assert!(matches!(e.value(), ValueNode::Integer(_)));
    assert_eq!(e.token_eq_text_range().map(|r| (r.start(), r.end())), Some((5, 6)));
    assert_eq!((e.text_range().start(), e.text_range().end()), (0, 9));
    assert!(matches!(e.into_value(), ValueNode::Integer(_)));
    // Without a key there is no entry; without a value the value is invalid.
    let keyless = node(SyntaxKind::ENTRY, vec![token(SyntaxKind::EQ, "=", 0)]);
    assert!(EntryNode::cast(&keyless).is_none());
    let bare = EntryNode::cast(&node(SyntaxKind::ENTRY, vec![key("a", 0)])).unwrap();
    assert!(matches!(bare.value(), ValueNode::Invalid(None)));
    assert_eq!(bare.token_eq_text_range().map(|r| r.start()), None);
    assert!(EntryNode::cast(&key("a", 0)).is_none());
}

#[test]
fn tables_are_cast_from_headers_and_inline_tables() {
    let header = node(
        SyntaxKind::TABLE_HEADER,
        vec![
            token(SyntaxKind::BRACKET_START, "[", 0),
            key("a", 1),
            token(SyntaxKind::BRACKET_END, "]", 2),
        ],
    );
    let t = TableNode::cast(&header).unwrap();
    assert!(t.entries().is_empty());
    assert!(!t.is_part_of_array() && !t.is_inline() && !t.is_pseudo());
    assert_eq!(t.syntax.text, "[a]");
    let keyless = node(
        SyntaxKind::TABLE_HEADER,
        vec![token(SyntaxKind::BRACKET_START, "[", 0), token(SyntaxKind::BRACKET_END, "]", 1)],
    );
    assert!(TableNode::cast(&keyless).is_none());
    let arrays = node(SyntaxKind::TABLE_ARRAY_HEADER, vec![key("a", 2)]);
    assert!(TableNode::cast(&arrays).unwrap().is_part_of_array());
    let inline = node(
        SyntaxKind::INLINE_TABLE,
        vec![
            token(SyntaxKind::BRACE_START, "{", 0),
            entry("x", token(SyntaxKind::INTEGER, "1", 5), 1),
            token(SyntaxKind::COMMA, ",", 6),
            entry("y", token(SyntaxKind::INTEGER, "2", 11), 7),
            token(SyntaxKind::BRACE_END, "}", 12),
        ],
    );
    let t = TableNode::cast(&inline).unwrap();
    assert!(t.is_inline());
    assert_eq!(t.entries().len(), 2);
    assert_eq!(t.entries().iter()[1].key().full_key_string(), "y");
    assert_eq!(t.entries().text_range().map(|r| (r.start(), r.end())), Some((1, 12)));
    assert_eq!((t.text_range().start(), t.text_range().end()), (0, 13));
    assert_eq!(t.into_entries().len(), 2);
    assert!(TableNode::cast(&key("a", 0)).is_none());
}

#[test]
fn nodes_are_cast_by_kind() {
    let n = Node::cast(&token(SyntaxKind::INTEGER, "1", 0)).unwrap();
    assert!(matches!(n, Node::Value(ValueNode::Integer(_))));
    assert_eq!(n.kind(), Some(SyntaxKind::INTEGER));
    assert_eq!(n.text_range().end(), 1);
    assert!(matches!(Node::cast(&key("a", 0)).unwrap(), Node::Key(_)));
    let e = entry("a", token(SyntaxKind::BOOL, "true", 4), 0);
    assert!(matches!(Node::cast(&e).unwrap(), Node::Entry(_)));
    assert!(matches!(Node::cast(&e.children[4]).unwrap(), Node::Value(ValueNode::Bool(_))));
    let a = node(SyntaxKind::ARRAY, vec![token(SyntaxKind::BRACKET_START, "[", 0)]);
    assert!(matches!(Node::cast(&a).unwrap(), Node::Array(_)));
    let header = node(SyntaxKind::TABLE_HEADER, vec![key("a", 1)]);
    assert!(matches!(Node::cast(&header).unwrap(), Node::Table(_)));
    let root = node(SyntaxKind::ROOT, vec![e]);
    match Node::cast(&root).unwrap() {
        Node::Root(r) => assert_eq!(r.entries().len(), 1),
        other => panic!("unexpected node {:?}", other),
    }
    assert!(Node::cast(&token(SyntaxKind::COMMENT, "# c", 0)).is_none());
    assert!(Node::cast(&token(SyntaxKind::WHITESPACE, " ", 0)).is_none());
}

#[test]
fn the_traits_agree_with_the_methods() {
    let k = <taplo::key::KeyNode as Cast>::cast(&key("a", 3)).unwrap();
    assert_eq!(Common::text_range(&k).start(), 3);
    assert_eq!(Common::syntax(&k).map(|h| h.kind), Some(SyntaxKind::KEY));
    assert!(Common::is_valid(&k));
    let v = <ValueNode as Cast>::cast(&value(token(SyntaxKind::ERROR, "?", 0))).unwrap();
    assert!(!Common::is_valid(&v));
    assert_eq!(Common::syntax(&v).map(|h| h.kind), Some(SyntaxKind::VALUE));
    assert!(Common::syntax(&ValueNode::Empty).is_none());
    let i = <IntegerNode as Cast>::cast(&token(SyntaxKind::INTEGER_HEX, "0x1", 0)).unwrap();
    assert_eq!(Common::text_range(&i).end(), 3);
}

#[test]
fn syntax_elements_know_their_text() {
    let e = entry("ab", token(SyntaxKind::INTEGER, "80", 5), 0);
    assert_eq!(e.text(), "ab = 80");
    assert_eq!(e.kind(), SyntaxKind::ENTRY);
    assert_eq!(e.text_range().end(), 7);
    assert_eq!(e.first_child(), Some(0));
    assert_eq!(e.children[0].text(), "ab");
    assert_eq!(e.handle().text, "ab = 80");
    let t = token(SyntaxKind::COMMENT, "# x", 0);
    assert_eq!(t.text(), "# x");
    assert_eq!(t.first_child(), None);
}
