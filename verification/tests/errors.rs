use taplo::dom::Error;
use taplo::key::KeyNode;
use taplo::range::TextRange;
use taplo::syntax::{SyntaxElement, SyntaxKind};

fn key(text: &str, start: u32) -> KeyNode {
    let mut children = Vec::new();
    let mut at = start;
    for part in text.split('.') {
        let end = at + part.len() as u32;
        children.push(SyntaxElement::token(SyntaxKind::IDENT, TextRange::new(at, end), part));
        at = end + 1;
    }
    let node = SyntaxElement::node(SyntaxKind::KEY, TextRange::new(start, at - 1), children);
    KeyNode::cast(&node).unwrap()
}

#[test]
fn each_error_has_its_message() {
    let (a, b) = (key("a.b", 0), key("c", 10));
    assert_eq!(
        Error::DuplicateKey { first: a.clone(), second: b.clone() }.to_string(),
        "duplicate keys: \"a.b\" (0..3) and \"c\" (10..11)"
    );
    assert_eq!(
        Error::ExpectedTable { target: a.clone(), key: b.clone() }.to_string(),
        "Expected \"a.b\" (0..3) to be a table, but it is not, required by \"c\" (10..11)"
    );
    assert_eq!(
        Error::TopLevelTableDefined { table: a.clone(), key: b.clone() }.to_string(),
        "full table definition \"a.b\" (0..3) conflicts with dotted keys \"c\" (10..11)"
    );
    assert_eq!(
        Error::ExpectedTableArray { target: a.clone(), key: b.clone() }.to_string(),
        "\"a.b\" (0..3) conflicts with array of tables: \"c\" (10..11)"
    );
    assert_eq!(
        Error::InlineTable { target: a.clone(), key: b.clone() }.to_string(),
        "inline tables cannot be modified: \"a.b\" (0..3), modification attempted here: \"c\" (10..11)"
    );
    assert_eq!(
        Error::Spanned { range: TextRange::new(4, 9), message: "table has no key".into() }
            .to_string(),
        "table has no key (4..9)"
    );
    assert_eq!(Error::Generic("something else".into()).to_string(), "something else");
}

#[test]
fn errors_can_be_copied() {
    let e = Error::DuplicateKey { first: key("a", 0), second: key("a", 5) };
    assert_eq!(e.clone().to_string(), e.to_string());
    let e = Error::Generic("g".into());
    assert_eq!(e.clone().to_string(), "g");
}
