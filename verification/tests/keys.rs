use taplo::key::KeyNode;
use taplo::range::TextRange;
use taplo::syntax::{SyntaxElement, SyntaxKind};

// The `KEY` node of a dotted key written at offset `start`.
fn key_node(text: &str, start: u32) -> SyntaxElement {
    let mut children = Vec::new();
    let mut at = start;
    for (i, part) in text.split('.').enumerate() {
        if i > 0 {
            children.push(SyntaxElement::token(
                SyntaxKind::PERIOD,
                TextRange::new(at, at + 1),
                ".",
            ));
            at += 1;
        }
        let end = at + part.len() as u32;
        children.push(SyntaxElement::token(SyntaxKind::IDENT, TextRange::new(at, end), part));
        at = end;
    }
    SyntaxElement::node(SyntaxKind::KEY, TextRange::new(start, at), children)
}

fn key(text: &str) -> KeyNode {
    KeyNode::cast(&key_node(text, 0)).expect("a key")
}

#[test]
fn cast_reads_the_identifiers() {
    let k = key("a.b.c");
    assert_eq!(k.key_count(), 3);
    assert_eq!(k.keys_str(), vec!["a", "b", "c"]);
    assert_eq!(k.full_key_string(), "a.b.c");
    assert_eq!(k.index, 0);
    let idents = k.idents();
    assert_eq!(idents.len(), 3);
    assert_eq!(idents[1].text, "b");
    assert_eq!(idents[1].range.start(), 2);
    assert_eq!(idents[1].range.end(), 3);
}

#[test]
fn cast_refuses_what_is_no_key() {
    let token = SyntaxElement::token(SyntaxKind::IDENT, TextRange::new(0, 1), "a");
    assert!(KeyNode::cast(&token).is_none());
    let empty = SyntaxElement::node(SyntaxKind::KEY, TextRange::new(0, 0), Vec::new());
    assert!(KeyNode::cast(&empty).is_none());
    let dots = SyntaxElement::node(
        SyntaxKind::KEY,
        TextRange::new(0, 1),
        vec![SyntaxElement::token(SyntaxKind::PERIOD, TextRange::new(0, 1), ".")],
    );
    assert!(KeyNode::cast(&dots).is_none());
    let wrong = SyntaxElement::node(
        SyntaxKind::VALUE,
        TextRange::new(0, 1),
        vec![SyntaxElement::token(SyntaxKind::IDENT, TextRange::new(0, 1), "a")],
    );
    assert!(KeyNode::cast(&wrong).is_none());
}

#[test]
fn quotes_are_not_part_of_a_segment() {
    let k = key("\"a b\".'c'.d");
    assert_eq!(k.keys_str(), vec!["a b", "c", "d"]);
    assert_eq!(k.full_key_string(), "a b.c.d");
    assert!(k.eq_keys(&key("'a b'.\"c\".d")));
    // A lone quote is no quoted identifier.
    assert_eq!(key("\"").keys_str(), vec!["\""]);
    assert_eq!(key("\"\"").keys_str(), vec![""]);
}

#[test]
fn is_part_of_compares_leading_segments() {
    assert!(key("a").is_part_of(&key("a.b")));
    assert!(key("a.b").is_part_of(&key("a.b")));
    assert!(!key("a.b").is_part_of(&key("a")));
    assert!(!key("a.c").is_part_of(&key("a.b.c")));
    assert!(key("a.b").contains(&key("a")));
    assert!(!key("a").contains(&key("a.b")));
}

#[test]
fn is_part_of_is_an_order_on_segments() {
    let (a, b, c) = (key("x"), key("x.y"), key("x.y.z"));
    for k in [&a, &b, &c] {
        assert!(k.is_part_of(k));
    }
    assert!(a.is_part_of(&b) && b.is_part_of(&c) && a.is_part_of(&c));
    let twin = key("x.y").with_index(4);
    assert!(b.is_part_of(&twin) && twin.is_part_of(&b));
    assert!(b.eq_keys(&twin));
    assert!(!b.same(&twin));
    assert!(b.same(&key("x.y")));
}

#[test]
fn common_prefix_count_counts_shared_segments() {
    assert_eq!(key("a.b.c").common_prefix_count(&key("a.b.d")), 2);
    assert_eq!(key("a.b.c").common_prefix_count(&key("a.b")), 2);
    assert_eq!(key("a").common_prefix_count(&key("b")), 0);
    assert_eq!(key("a.b").common_prefix_count(&key("a.b")), 2);
    assert_eq!(key("a.x.c").common_prefix_count(&key("a.y.c")), 1);
}

#[test]
fn outer_keeps_and_inner_skips() {
    assert_eq!(key("a.b.c").outer(2).full_key_string(), "a.b");
    assert_eq!(key("a.b.c").outer(1).full_key_string(), "a");
    assert_eq!(key("a.b.c").outer(0).full_key_string(), "a");
    assert_eq!(key("a.b.c").outer(3).full_key_string(), "a.b.c");
    assert_eq!(key("a.b.c").outer(9).full_key_string(), "a.b.c");
    assert_eq!(key("a.b.c").inner(0).full_key_string(), "a.b.c");
    assert_eq!(key("a.b.c").inner(1).full_key_string(), "b.c");
    assert_eq!(key("a.b.c").inner(2).full_key_string(), "c");
    assert_eq!(key("a.b.c").inner(3).full_key_string(), "c");
    assert_eq!(key("a.b.c").inner(9).full_key_string(), "c");
    assert_eq!(key("a.b.c.d").inner(1).outer(2).full_key_string(), "b.c");
    assert_eq!(key("a.b.c.d").outer(3).inner(1).key_count(), 2);
}

#[test]
fn outer_and_inner_split_a_key() {
    let k = key("a.b.c.d");
    for n in 1..4 {
        let mut parts = k.clone().outer(n).inner(0).keys_str();
        parts.extend(k.clone().inner(n).keys_str());
        assert_eq!(parts, k.keys_str());
    }
    // Outside 1 <= n < key_count one segment stands on both sides.
    let mut parts = k.clone().outer(0).inner(0).keys_str();
    parts.extend(k.clone().inner(0).keys_str());
    assert_eq!(parts, vec!["a", "a", "b", "c", "d"]);
}

#[test]
fn prefix_and_last() {
    assert_eq!(key("a.b.c").prefix().full_key_string(), "a.b");
    assert_eq!(key("a.b.c").last().full_key_string(), "c");
    assert_eq!(key("a").prefix().full_key_string(), "a");
    assert_eq!(key("a").last().full_key_string(), "a");
}

#[test]
fn with_prefix_then_without_prefix() {
    let table = key("t.u").with_index(3);
    let k = key("a.b");
    let full = k.clone().with_prefix(&table);
    assert_eq!(full.full_key_string(), "t.u.a.b");
    assert_eq!(full.index, 3);
    assert_eq!(full.key_count(), 4);
    let back = full.without_prefix(&table);
    assert_eq!(back.keys_str(), k.keys_str());
    assert_eq!(back.full_key_string(), "a.b");
}

#[test]
fn without_prefix_drops_shared_segments() {
    assert_eq!(key("a.b.c").without_prefix(&key("a.b")).full_key_string(), "c");
    assert_eq!(key("a.b.c").without_prefix(&key("a.x")).full_key_string(), "b.c");
    assert_eq!(key("a.b.c").without_prefix(&key("x")).full_key_string(), "a.b.c");
    // One segment always stays.
    assert_eq!(key("a.b").without_prefix(&key("a.b")).full_key_string(), "b");
    assert_eq!(key("a").without_prefix(&key("a")).full_key_string(), "a");
}

#[test]
fn with_index_changes_the_index_only() {
    let k = key("a.b").with_index(7);
    assert_eq!(k.index, 7);
    assert_eq!(k.full_key_string(), "a.b");
    assert_eq!(k.identity(), (vec!["a".to_string(), "b".to_string()], 7));
}

#[test]
fn text_range_covers_the_visible_identifiers() {
    let k = KeyNode::cast(&key_node("ab.cd.ef", 10)).unwrap();
    assert_eq!((k.text_range().start(), k.text_range().end()), (10, 18));
    let inner = k.clone().inner(1);
    assert_eq!((inner.text_range().start(), inner.text_range().end()), (13, 18));
    let outer = k.outer(1);
    assert_eq!((outer.text_range().start(), outer.text_range().end()), (10, 12));
}

#[test]
fn keys_are_equal_by_segments_and_index() {
    assert!(key("a.b") == key("a.b"));
    assert!(key("a.b") == key("'a'.\"b\""));
    assert!(key("a.b") != key("a.c"));
    assert!(key("a.b") != key("a"));
    assert!(key("a.b") != key("a.b").with_index(1));
    assert!(key("x.a.b").inner(1) == key("a.b.y").outer(2));
    assert!(key("a").is_wf());
    let mut broken = key("a");
    broken.mask_visible = 0;
    assert!(!broken.is_wf());
    assert!(broken != key("a"));
}
