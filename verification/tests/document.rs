use taplo::error::Error;
use taplo::node::{ArrayNode, EntryNode, TableNode, ValueNode};
use taplo::range::TextRange;
use taplo::root::RootNode;
use taplo::syntax::{SyntaxElement, SyntaxKind};

// A small reader for the part of TOML that these tests write: it builds the
// syntax tree that the document model is lifted from.
struct Reader {
    src: Vec<char>,
    pos: usize,
}

fn range(start: usize, end: usize) -> TextRange {
    TextRange::new(start as u32, end as u32)
}

impl Reader {
    fn new(src: &str) -> Reader {
        Reader { src: src.chars().collect(), pos: 0 }
    }

    fn peek(&self) -> Option<char> {
        self.src.get(self.pos).copied()
    }

    fn starts_with(&self, s: &str) -> bool {
        let want: Vec<char> = s.chars().collect();
        self.src.len() >= self.pos + want.len()
            && self.src[self.pos..self.pos + want.len()] == want[..]
    }

    fn token(&mut self, kind: SyntaxKind, len: usize) -> SyntaxElement {
        let start = self.pos;
        let text: String = self.src[start..start + len].iter().collect();
        self.pos += len;
        SyntaxElement::token(kind, range(start, start + len), &text)
    }

    fn take_while(&mut self, kind: SyntaxKind, keep: fn(char) -> bool) -> SyntaxElement {
        let mut len = 0;
        while self.pos + len < self.src.len() && keep(self.src[self.pos + len]) {
            len += 1;
        }
        self.token(kind, len)
    }

    fn trivia(&mut self, out: &mut Vec<SyntaxElement>, lines: bool) {
        loop {
            match self.peek() {
                Some(' ') | Some('\t') => {
                    out.push(self.take_while(SyntaxKind::WHITESPACE, |c| c == ' ' || c == '\t'))
                }
                Some('\n') if lines => out.push(self.token(SyntaxKind::NEWLINE, 1)),
                Some('#') => out.push(self.take_while(SyntaxKind::COMMENT, |c| c != '\n')),
                _ => break,
            }
        }
    }

    fn quoted(&mut self, kind: SyntaxKind, quote: char, count: usize) -> SyntaxElement {
        let mut len = count;
        loop {
            let at = self.pos + len;
            if at >= self.src.len() {
                break;
            }
            if self.src[at] == '\\' && quote == '"' {
                len += 2;
                continue;
            }
            if (0..count).all(|k| self.src.get(at + k) == Some(&quote)) {
                len += count;
                break;
            }
            len += 1;
        }
        self.token(kind, len.min(self.src.len() - self.pos))
    }

    fn key(&mut self) -> SyntaxElement {
        let start = self.pos;
        let mut children = Vec::new();
        loop {
            match self.peek() {
                Some('"') => children.push(self.quoted(SyntaxKind::IDENT, '"', 1)),
                Some('\'') => children.push(self.quoted(SyntaxKind::IDENT, '\'', 1)),
                _ => children.push(self.take_while(SyntaxKind::IDENT, |c| {
                    c.is_ascii_alphanumeric() || c == '_' || c == '-'
                })),
            }
            if self.peek() == Some('.') {
                children.push(self.token(SyntaxKind::PERIOD, 1));
            } else {
                break;
            }
        }
        SyntaxElement::node(SyntaxKind::KEY, range(start, self.pos), children)
    }

    fn value(&mut self) -> SyntaxElement {
        let start = self.pos;
        let inner = if self.starts_with("\"\"\"") {
            self.quoted(SyntaxKind::MULTI_LINE_STRING, '"', 3)
        } else if self.starts_with("'''") {
            self.quoted(SyntaxKind::MULTI_LINE_STRING_LITERAL, '\'', 3)
        } else if self.starts_with("\"") {
            self.quoted(SyntaxKind::STRING, '"', 1)
        } else if self.starts_with("'") {
            self.quoted(SyntaxKind::STRING_LITERAL, '\'', 1)
        } else if self.starts_with("true") {
            self.token(SyntaxKind::BOOL, 4)
        } else if self.starts_with("false") {
            self.token(SyntaxKind::BOOL, 5)
        } else if self.starts_with("[") {
            self.array()
        } else if self.starts_with("{") {
            self.inline_table()
        } else {
            let kind = if self.starts_with("0x") {
                SyntaxKind::INTEGER_HEX
            } else if self.starts_with("0o") {
                SyntaxKind::INTEGER_OCT
            } else if self.starts_with("0b") {
                SyntaxKind::INTEGER_BIN
            } else {
                SyntaxKind::INTEGER
            };
            self.take_while(kind, |c| c.is_ascii_alphanumeric() || c == '_' || c == '+' || c == '-')
        };
        SyntaxElement::node(SyntaxKind::VALUE, range(start, self.pos), vec![inner])
    }

    fn array(&mut self) -> SyntaxElement {
        let start = self.pos;
        let mut children = vec![self.token(SyntaxKind::BRACKET_START, 1)];
        loop {
            self.trivia(&mut children, true);
            match self.peek() {
                Some(']') => {
                    children.push(self.token(SyntaxKind::BRACKET_END, 1));
                    break;
                }
                Some(',') => children.push(self.token(SyntaxKind::COMMA, 1)),
                Some(_) => children.push(self.value()),
                None => break,
            }
        }
        SyntaxElement::node(SyntaxKind::ARRAY, range(start, self.pos), children)
    }

    fn inline_table(&mut self) -> SyntaxElement {
        let start = self.pos;
        let mut children = vec![self.token(SyntaxKind::BRACE_START, 1)];
        loop {
            self.trivia(&mut children, false);
            match self.peek() {
                Some('}') => {
                    children.push(self.token(SyntaxKind::BRACE_END, 1));
                    break;
                }
                Some(',') => children.push(self.token(SyntaxKind::COMMA, 1)),
                Some(_) => children.push(self.entry()),
                None => break,
            }
        }
        SyntaxElement::node(SyntaxKind::INLINE_TABLE, range(start, self.pos), children)
    }

    fn entry(&mut self) -> SyntaxElement {
        let start = self.pos;
        let mut children = vec![self.key()];
        self.trivia(&mut children, false);
        if self.peek() == Some('=') {
            children.push(self.token(SyntaxKind::EQ, 1));
            self.trivia(&mut children, false);
            children.push(self.value());
        }
        SyntaxElement::node(SyntaxKind::ENTRY, range(start, self.pos), children)
    }

    fn header(&mut self) -> SyntaxElement {
        let start = self.pos;
        let mut children = Vec::new();
        while self.peek() == Some('[') {
            children.push(self.token(SyntaxKind::BRACKET_START, 1));
        }
        if self.peek() != Some(']') {
            children.push(self.key());
        }
        while self.peek() == Some(']') {
            children.push(self.token(SyntaxKind::BRACKET_END, 1));
        }
        let kind = if children.first().map(|c| c.kind) == Some(SyntaxKind::BRACKET_START)
            && children.get(1).map(|c| c.kind) == Some(SyntaxKind::BRACKET_START)
        {
            SyntaxKind::TABLE_ARRAY_HEADER
        } else {
            SyntaxKind::TABLE_HEADER
        };
        SyntaxElement::node(kind, range(start, self.pos), children)
    }

    fn root(&mut self) -> SyntaxElement {
        let mut children = Vec::new();
        loop {
            self.trivia(&mut children, true);
            match self.peek() {
                Some('[') => children.push(self.header()),
                Some(_) => children.push(self.entry()),
                None => break,
            }
        }
        SyntaxElement::node(SyntaxKind::ROOT, range(0, self.src.len()), children)
    }
}

fn parse(src: &str) -> SyntaxElement {
    Reader::new(src).root()
}

fn dom(src: &str) -> RootNode {
    RootNode::cast(&parse(src)).expect("a root")
}

fn name(e: &EntryNode) -> String {
    e.key().full_key_string()
}

fn table(v: &ValueNode) -> &TableNode {
    match v {
        ValueNode::Table(t) => t,
        other => panic!("expected a table, found {:?}", other),
    }
}

fn array(v: &ValueNode) -> &ArrayNode {
    match v {
        ValueNode::Array(a) => a,
        other => panic!("expected an array, found {:?}", other),
    }
}

fn integer_text(v: &ValueNode) -> String {
    match v {
        ValueNode::Integer(i) => i.syntax.text.clone(),
        other => panic!("expected an integer, found {:?}", other),
    }
}

#[test]
fn asd() {
    let src = r#"
asd.bsd.csd.dsd.esd.fsd = 1
"#;

    let root = dom(src);
    assert!(root.errors().is_empty());
    let mut entries = root.entries();
    for segment in ["asd", "bsd", "csd", "dsd", "esd"] {
        assert_eq!(entries.len(), 1);
        let e = &entries.iter()[0];
        assert_eq!(name(e), segment);
        let t = table(e.value());
        assert!(t.is_pseudo());
        entries = t.entries();
    }
    assert_eq!(entries.len(), 1);
    assert_eq!(name(&entries.iter()[0]), "fsd");
    assert_eq!(integer_text(entries.iter()[0].value()), "1");
}

#[test]
fn dotted_keys_are_merged() {
    let root = dom("a.b.c = 1\na.b.d = 2");
    assert!(root.errors().is_empty());
    assert_eq!(root.entries().len(), 1);
    let a = &root.entries().iter()[0];
    assert_eq!(name(a), "a");
    let ta = table(a.value());
    assert!(ta.is_pseudo());
    assert_eq!(ta.entries().len(), 1);
    let b = &ta.entries().iter()[0];
    assert_eq!(name(b), "b");
    let tb = table(b.value());
    assert!(tb.is_pseudo());
    assert_eq!(tb.entries().len(), 2);
    assert_eq!(name(&tb.entries().iter()[0]), "c");
    assert_eq!(integer_text(tb.entries().iter()[0].value()), "1");
    assert_eq!(name(&tb.entries().iter()[1]), "d");
    assert_eq!(integer_text(tb.entries().iter()[1].value()), "2");
}

#[test]
fn duplicate_keys_are_reported() {
    let root = dom("a = 1\na = 2");
    assert_eq!(root.entries().len(), 1);
    assert_eq!(name(&root.entries().iter()[0]), "a");
    assert_eq!(integer_text(root.entries().iter()[0].value()), "1");
    assert_eq!(root.errors().len(), 1);
    match &root.errors()[0] {
        Error::DuplicateKey { first, second } => {
            assert_eq!(first.full_key_string(), "a");
            assert_eq!(second.full_key_string(), "a");
        }
        other => panic!("unexpected error {:?}", other),
    }
}

#[test]
fn arrays_of_tables_are_gathered() {
    let root = dom("[[x]]\nn=1\n[[x]]\nn=2");
    assert!(root.errors().is_empty());
    assert_eq!(root.entries().len(), 1);
    let x = &root.entries().iter()[0];
    assert_eq!(name(x), "x");
    let a = array(x.value());
    assert!(a.is_array_of_tables());
    assert_eq!(a.items().len(), 2);
    for (item, want) in a.items().iter().zip(["1", "2"]) {
        let t = table(item);
        assert!(!t.is_part_of_array());
        assert_eq!(t.entries().len(), 1);
        assert_eq!(name(&t.entries().iter()[0]), "n");
        assert_eq!(integer_text(t.entries().iter()[0].value()), want);
    }
}

#[test]
fn inline_tables_cannot_be_modified() {
    let root = dom("a = { x = 1 }\na.y = 2");
    assert_eq!(root.errors().len(), 1);
    match &root.errors()[0] {
        Error::InlineTable { target, key } => {
            assert_eq!(target.full_key_string(), "a");
            assert_eq!(key.full_key_string(), "a.y");
        }
        other => panic!("unexpected error {:?}", other),
    }
    assert_eq!(root.entries().len(), 1);
    let a = &root.entries().iter()[0];
    assert_eq!(name(a), "a");
    let t = table(a.value());
    assert!(t.is_inline());
    assert_eq!(t.entries().len(), 1);
    assert_eq!(name(&t.entries().iter()[0]), "x");
}

#[test]
fn table_over_dotted_key_is_reported() {
    let root = dom("a.b = 1\n[a]\nc = 2");
    let found = root.errors().iter().any(|e| match e {
        Error::TopLevelTableDefined { table, key } => {
            table.full_key_string() == "a" && key.full_key_string() == "a.b"
        }
        _ => false,
    });
    assert!(found, "errors: {:?}", root.errors());
}

#[test]
fn header_span_reaches_the_next_header() {
    let src = "[a]\nx = 1\n\n\n[b]\ny = 2";
    let root = dom(src);
    assert!(root.errors().is_empty());
    let a = &root.entries().iter()[0];
    assert_eq!(name(a), "a");
    let at = src.find("[b]").unwrap() as u32;
    assert_eq!(a.text_range().start(), 0);
    assert_eq!(a.text_range().end(), at);
    assert_eq!(table(a.value()).text_range().end(), at);
    let b = &root.entries().iter()[1];
    assert_eq!(name(b), "b");
    assert_eq!(b.text_range().start(), at);
    assert_eq!(b.text_range().end(), src.len() as u32 + 1);
}

fn messages(root: &RootNode) -> Vec<String> {
    root.errors().iter().map(|e| e.to_string()).collect()
}

fn names(entries: &taplo::node::Entries) -> Vec<String> {
    entries.iter().iter().map(name).collect()
}

#[test]
fn a_root_is_cast_from_a_root_only() {
    let src = parse("a = 1");
    assert!(RootNode::cast(&src).is_some());
    assert!(RootNode::cast(&src.children[0]).is_none());
    let empty = dom("");
    assert!(empty.entries().is_empty());
    assert!(empty.errors().is_empty());
    assert_eq!(empty.text_range().end(), 0);
}

#[test]
fn entries_keep_the_order_of_the_source() {
    let root = dom("z = 1\na = 2\n[m]\nk = 3\n[b]\n");
    assert!(root.errors().is_empty());
    assert_eq!(names(root.entries()), vec!["z", "a", "m", "b"]);
    assert_eq!(names(table(root.entries().iter()[2].value()).entries()), vec!["k"]);
    assert!(table(root.entries().iter()[3].value()).entries().is_empty());
}

#[test]
fn duplicate_message() {
    let root = dom("a = 1\na = 2");
    assert_eq!(messages(&root), vec!["duplicate keys: \"a\" (0..1) and \"a\" (6..7)"]);
}

#[test]
fn duplicate_headers_are_reported() {
    let root = dom("[a]\n[a]\n");
    assert_eq!(messages(&root), vec!["duplicate keys: \"a\" (1..2) and \"a\" (5..6)"]);
    assert_eq!(names(root.entries()), vec!["a"]);
}

#[test]
fn duplicate_under_a_header_names_the_entries() {
    let root = dom("[t]\na = 1\na = 2");
    assert_eq!(root.errors().len(), 1);
    match &root.errors()[0] {
        Error::DuplicateKey { first, second } => {
            assert_eq!(first.full_key_string(), "a");
            assert_eq!(second.full_key_string(), "a");
            assert_eq!(first.text_range().start(), 4);
            assert_eq!(second.text_range().start(), 10);
        }
        other => panic!("unexpected error {:?}", other),
    }
    // Where lifting fails nothing is merged: the entries stay flat, under
    // their full keys.
    assert_eq!(names(root.entries()), vec!["t", "t.a"]);
}

#[test]
fn header_without_key_is_reported() {
    let root = dom("a = 1\n[]\nb = 2");
    assert_eq!(messages(&root), vec!["table has no key (6..8)"]);
    match &root.errors()[0] {
        Error::Spanned { range, message } => {
            assert_eq!((range.start(), range.end()), (6, 8));
            assert_eq!(message, "table has no key");
        }
        other => panic!("unexpected error {:?}", other),
    }
    // The entries after it stand where they stood before it.
    assert_eq!(names(root.entries()), vec!["a", "b"]);
}

#[test]
fn value_cannot_hold_an_entry() {
    let root = dom("a = 1\na.b = 2");
    assert_eq!(
        messages(&root),
        vec!["Expected \"a\" (0..1) to be a table, but it is not, required by \"a.b\" (6..9)"]
    );
    assert!(matches!(&root.errors()[0], Error::ExpectedTable { .. }));
    assert_eq!(names(root.entries()), vec!["a"]);
    assert_eq!(integer_text(root.entries().iter()[0].value()), "1");
}

#[test]
fn array_cannot_hold_an_entry() {
    let root = dom("a = [1]\n[a.b]\n");
    assert_eq!(
        messages(&root),
        vec!["\"a\" (0..1) conflicts with array of tables: \"a.b\" (9..12)"]
    );
    assert!(matches!(&root.errors()[0], Error::ExpectedTableArray { .. }));
}

#[test]
fn table_after_array_of_tables_is_reported() {
    let root = dom("[[a]]\n[a]\n");
    assert_eq!(root.errors().len(), 1);
    match &root.errors()[0] {
        Error::ExpectedTableArray { target, key } => {
            assert_eq!(target.text_range().start(), 2);
            assert_eq!(key.text_range().start(), 7);
        }
        other => panic!("unexpected error {:?}", other),
    }
    let root = dom("[a]\n[[a]]\n");
    assert_eq!(root.errors().len(), 1);
    match &root.errors()[0] {
        Error::ExpectedTableArray { target, key } => {
            assert_eq!(target.text_range().start(), 6);
            assert_eq!(key.text_range().start(), 1);
        }
        other => panic!("unexpected error {:?}", other),
    }
}

#[test]
fn inline_table_message() {
    let root = dom("a = { x = 1 }\na.y = 2");
    assert_eq!(
        messages(&root),
        vec![
            "inline tables cannot be modified: \"a\" (0..1), modification attempted here: \"a.y\" (14..17)"
        ]
    );
}

#[test]
fn top_level_table_message() {
    let root = dom("a.b = 1\n[a]\nc = 2");
    assert_eq!(
        messages(&root),
        vec!["full table definition \"a\" (9..10) conflicts with dotted keys \"a.b\" (0..3)"]
    );
}

#[test]
fn table_below_a_dotted_key_is_reported() {
    let root = dom("[t]\na.b = 1\n[t.a]\nc = 2");
    let found = root.errors().iter().any(|e| match e {
        Error::TopLevelTableDefined { table, key } => {
            table.full_key_string() == "t.a" && key.full_key_string() == "a.b"
        }
        _ => false,
    });
    assert!(found, "errors: {:?}", messages(&root));
}

#[test]
fn subtable_before_its_table_is_fine() {
    let root = dom("[a.b]\nx = 1\n[a]\ny = 2\n[a.c]\nz = 3");
    assert_eq!(messages(&root), Vec::<String>::new());
    assert_eq!(names(root.entries()), vec!["a"]);
    let a = table(root.entries().iter()[0].value());
    assert_eq!(names(a.entries()), vec!["b", "y", "c"]);
    assert_eq!(names(table(a.entries().iter()[0].value()).entries()), vec!["x"]);
    assert_eq!(names(table(a.entries().iter()[2].value()).entries()), vec!["z"]);
}

#[test]
fn entry_into_a_superseded_table_is_reported() {
    let root = dom("[a.b]\n[a]\nb.c = 1");
    let found = root.errors().iter().any(|e| match e {
        Error::TopLevelTableDefined { table, key } => {
            table.full_key_string() == "a.b" && key.full_key_string() == "b.c"
        }
        _ => false,
    });
    assert!(found, "errors: {:?}", messages(&root));
}

#[test]
fn first_entry_below_a_later_array_of_tables_is_reported() {
    let root = dom("[a.b]\n[[a]]\n");
    let found = root.errors().iter().any(|e| match e {
        Error::ExpectedTableArray { target, key } => {
            target.full_key_string() == "a" && key.full_key_string() == "a.b"
        }
        _ => false,
    });
    assert!(found, "errors: {:?}", messages(&root));
}

#[test]
fn tables_are_nested_by_their_headers() {
    let root = dom("[a]\nx = 1\n[a.b]\ny = 2\n[c]\n");
    assert!(root.errors().is_empty());
    assert_eq!(names(root.entries()), vec!["a", "c"]);
    let a = table(root.entries().iter()[0].value());
    assert!(!a.is_pseudo() && !a.is_inline() && !a.is_part_of_array());
    assert_eq!(names(a.entries()), vec!["x", "b"]);
    let b = table(a.entries().iter()[1].value());
    assert!(!b.is_pseudo());
    assert_eq!(names(b.entries()), vec!["y"]);
}

#[test]
fn entries_below_an_array_of_tables_go_into_its_last_table() {
    let root = dom("[[x]]\nn = 1\nsub.k = 1\n[[x]]\nn = 2\nsub.k = 2");
    assert_eq!(messages(&root), Vec::<String>::new());
    let x = array(root.entries().iter()[0].value());
    assert_eq!(x.items().len(), 2);
    for (item, want) in x.items().iter().zip(["1", "2"]) {
        let t = table(item);
        assert_eq!(names(t.entries()), vec!["n", "sub"]);
        assert_eq!(integer_text(t.entries().iter()[0].value()), want);
        let sub = table(t.entries().iter()[1].value());
        assert!(sub.is_pseudo());
        assert_eq!(names(sub.entries()), vec!["k"]);
        assert_eq!(integer_text(sub.entries().iter()[0].value()), want);
    }
}

#[test]
fn a_table_header_is_met_again_under_the_next_array_table() {
    // The key of a table header carries no index of its own, so the second
    // `[x.sub]` meets the first.
    let root = dom("[[x]]\n[x.sub]\n[[x]]\n[x.sub]\n");
    assert_eq!(messages(&root), vec!["duplicate keys: \"x.sub\" (7..12) and \"x.sub\" (21..26)"]);
}

fn single_segments(entries: &taplo::node::Entries) -> bool {
    entries.iter().iter().all(|e| e.key().key_count() == 1 && single_below(e.value()))
}

fn single_below(v: &ValueNode) -> bool {
    match v {
        ValueNode::Table(t) => single_segments(t.entries()),
        ValueNode::Array(a) => a.items().iter().all(single_below),
        _ => true,
    }
}

fn tables_hold_tables(v: &ValueNode) -> bool {
    match v {
        ValueNode::Table(t) => t.entries().iter().iter().all(|e| tables_hold_tables(e.value())),
        ValueNode::Array(a) => {
            a.items().iter().all(tables_hold_tables)
                && (!a.is_array_of_tables()
                    || a.items().iter().all(|i| match i {
                        ValueNode::Table(t) => !t.is_part_of_array(),
                        _ => false,
                    }))
        }
        _ => true,
    }
}

fn pseudo_below(v: &ValueNode) -> bool {
    match v {
        ValueNode::Table(t) => {
            t.is_pseudo() || t.entries().iter().iter().any(|e| pseudo_below(e.value()))
        }
        ValueNode::Array(a) => a.items().iter().any(pseudo_below),
        _ => false,
    }
}

const LARGE: &str = "title = \"x\"\nowner.name = 'n'\nowner.tags = [1, [2, 3], { p.q = 1 }]\n\
[server.alpha]\nip = \"10.0.0.1\"\nlimits.cpu.max = 4\n[server]\nname = \"s\"\n\
[[fruit]]\nname = \"apple\"\nphysical.color = \"red\"\n[[fruit.variety]]\nname = \"gala\"\n\
[[fruit.variety]]\nname = \"fuji\"\n[[fruit]]\nname = \"banana\"\n[fruit.info]\ninline = { a.b.c = 1, d = 2 }\n";

#[test]
fn every_key_has_one_segment_after_normalizing() {
    let root = dom(LARGE);
    assert_eq!(messages(&root), Vec::<String>::new());
    assert!(single_segments(root.entries()));
    assert_eq!(names(root.entries()), vec!["title", "owner", "server", "fruit"]);
}

#[test]
fn arrays_of_tables_hold_plain_tables() {
    let root = dom(LARGE);
    assert!(root.entries().iter().iter().all(|e| tables_hold_tables(e.value())));
    let fruit = array(root.entries().iter()[3].value());
    assert!(fruit.is_array_of_tables());
    assert_eq!(fruit.items().len(), 2);
    let apple = table(&fruit.items()[0]);
    assert_eq!(names(apple.entries()), vec!["name", "physical", "variety"]);
    let variety = array(apple.entries().iter()[2].value());
    assert!(variety.is_array_of_tables());
    assert_eq!(variety.items().len(), 2);
    let banana = table(&fruit.items()[1]);
    assert_eq!(names(banana.entries()), vec!["name", "info"]);
}

#[test]
fn no_table_is_made_where_lifting_fails() {
    let root = dom("a.b = 1\na.b = 2\nc.d = 3\nc.e = 4");
    assert_eq!(root.errors().len(), 1);
    assert!(!root.entries().iter().iter().any(|e| pseudo_below(e.value())));
    assert_eq!(names(root.entries()), vec!["a.b", "c.d", "c.e"]);
    // Without the duplicate the same entries are merged into tables.
    let merged = dom("a.b = 1\nc.d = 3\nc.e = 4");
    assert!(merged.entries().iter().iter().all(|e| pseudo_below(e.value())));
    assert_eq!(names(merged.entries()), vec!["a", "c"]);
}

#[test]
fn dotted_keys_in_inline_tables_are_normalized() {
    let root = dom("a = { x.y = 1, z = 2 }");
    assert!(root.errors().is_empty());
    let a = table(root.entries().iter()[0].value());
    assert!(a.is_inline());
    assert_eq!(names(a.entries()), vec!["x", "z"]);
    let x = table(a.entries().iter()[0].value());
    assert!(x.is_pseudo());
    assert_eq!(names(x.entries()), vec!["y"]);
}

#[test]
fn spans_of_nested_tables_reach_past_their_subtables() {
    let src = "[a]\nx = 1\n[a.b]\ny = 2\n[c]\nz = 3";
    let root = dom(src);
    let at_c = src.find("[c]").unwrap() as u32;
    let a = &root.entries().iter()[0];
    assert_eq!((a.text_range().start(), a.text_range().end()), (0, at_c));
    let b = &table(a.value()).entries().iter()[1];
    assert_eq!(name(b), "b");
    assert_eq!(b.text_range().start(), src.find("[a.b]").unwrap() as u32);
    assert_eq!(b.text_range().end(), at_c);
    let c = &root.entries().iter()[1];
    assert_eq!((c.text_range().start(), c.text_range().end()), (at_c, src.len() as u32 + 1));
    // A plain entry has the range of its syntax.
    let x = &table(a.value()).entries().iter()[0];
    assert_eq!((x.text_range().start(), x.text_range().end()), (4, 9));
    assert_eq!(x.token_eq_text_range().map(|r| (r.start(), r.end())), Some((6, 7)));
    assert_eq!(a.token_eq_text_range().map(|r| r.start()), None);
}

#[test]
fn spans_of_array_tables_end_at_the_next_table_of_the_array() {
    let src = "[[x]]\nn = 1\n[[x]]\nn = 2\n[y]\n";
    let root = dom(src);
    assert!(root.errors().is_empty());
    let x = &root.entries().iter()[0];
    let end = src.len() as u32 + 1;
    let second = src.rfind("[[x]]").unwrap() as u32;
    // The entry came from the first header of the array, and ends with it.
    assert_eq!((x.text_range().start(), x.text_range().end()), (0, second));
    let items = array(x.value()).items();
    assert_eq!(array(x.value()).text_range().end(), end);
    assert_eq!(table(&items[0]).text_range().start(), 0);
    assert_eq!(table(&items[0]).text_range().end(), second);
    assert_eq!(table(&items[1]).text_range().start(), second);
    assert_eq!(table(&items[1]).text_range().end(), end);
}

#[test]
fn a_header_whose_name_begins_alike_does_not_end_a_span() {
    let src = "[a]\n[ab]\n[b]\n";
    let root = dom(src);
    let a = &root.entries().iter()[0];
    assert_eq!(a.text_range().end(), src.find("[b]").unwrap() as u32);
}


#[test]
fn headers_of_plain_tables_end_no_span_of_an_array_table() {
    let src = "[[x]]\nn = 1\n[y]\nm = 2\n[[z]]\n";
    let root = dom(src);
    assert!(root.errors().is_empty());
    let x = &root.entries().iter()[0];
    assert_eq!(x.text_range().end(), src.find("[[z]]").unwrap() as u32);
    let y = &root.entries().iter()[1];
    assert_eq!(y.text_range().end(), src.find("[[z]]").unwrap() as u32);
}

#[test]
fn keys_of_a_level_are_distinct() {
    fn distinct(entries: &taplo::node::Entries) -> bool {
        let all = names(entries);
        all.iter().enumerate().all(|(i, a)| all.iter().skip(i + 1).all(|b| a != b))
            && entries.iter().iter().all(|e| below(e.value()))
    }
    fn below(v: &ValueNode) -> bool {
        match v {
            ValueNode::Table(t) => t.is_inline() || distinct(t.entries()),
            ValueNode::Array(a) => {
                !a.is_array_of_tables() || a.items().iter().all(|i| distinct(table(i).entries()))
            }
            _ => true,
        }
    }
    let root = dom(LARGE);
    assert!(distinct(root.entries()));
    let root = dom("a.b.c = 1\na.b.d = 2\na.e = 3\n[a.f]\ng.h = 4\ng.i = 5\n[[k]]\na.b = 1\na.c = 2");
    assert_eq!(messages(&root), Vec::<String>::new());
    assert!(distinct(root.entries()));
    // Inside an inline table nothing is merged, and keys may meet again.
    let root = dom("t = { x.y = 1, x.z = 2 }");
    assert_eq!(names(table(root.entries().iter()[0].value()).entries()), vec!["x", "x"]);
}

#[test]
fn spans_of_tables_that_stand_apart_do_not_overlap() {
    let src = "top = 1\n[a]\nx = 1\n[a.b]\n[c]\n\n[d.e]\ny = 2\n";
    let root = dom(src);
    assert!(root.errors().is_empty());
    let tables: Vec<&EntryNode> = root.entries().iter().iter().skip(1).collect();
    assert_eq!(tables.len(), 3);
    for pair in tables.windows(2) {
        assert_eq!(pair[0].text_range().end(), pair[1].text_range().start());
    }
    assert_eq!(tables[0].text_range().start(), src.find("[a]").unwrap() as u32);
    assert_eq!(tables[2].text_range().end(), src.len() as u32 + 1);
}

fn leaf_texts(v: &ValueNode, out: &mut Vec<String>) {
    match v {
        ValueNode::Table(t) => t.entries().iter().iter().for_each(|e| leaf_texts(e.value(), out)),
        ValueNode::Array(a) => a.items().iter().for_each(|i| leaf_texts(i, out)),
        ValueNode::Integer(i) => out.push(i.syntax.text.clone()),
        ValueNode::String(s) => out.push(s.syntax.text.clone()),
        ValueNode::Bool(b) => out.push(b.syntax.text.clone()),
        other => out.push(format!("{:?}", other)),
    }
}

#[test]
fn no_value_is_lost_or_made() {
    let root = dom(LARGE);
    assert!(root.errors().is_empty());
    let mut found = Vec::new();
    root.entries().iter().iter().for_each(|e| leaf_texts(e.value(), &mut found));
    found.sort();
    let mut want: Vec<String> = [
        "\"x\"", "'n'", "1", "2", "3", "1", "\"10.0.0.1\"", "4", "\"s\"", "\"apple\"",
        "\"red\"", "\"gala\"", "\"fuji\"", "\"banana\"", "1", "2",
    ]
    .iter()
    .map(|s| s.to_string())
    .collect();
    want.sort();
    assert_eq!(found, want);
}

#[test]
fn a_value_under_the_key_of_a_made_table_goes_into_it() {
    // The table `a.b` is made from the first two keys; the third entry has
    // the very key of that table, and is taken in under its last segment.
    let root = dom("a.b.c = 1\na.b.d = 2\na.b = 3");
    assert_eq!(messages(&root), Vec::<String>::new());
    let a = table(root.entries().iter()[0].value());
    let b = table(a.entries().iter()[0].value());
    assert_eq!(names(b.entries()), vec!["c", "d", "b"]);
    assert_eq!(integer_text(b.entries().iter()[2].value()), "3");
}

fn pairs(v: &ValueNode, path: &str, out: &mut Vec<(String, String)>) {
    match v {
        ValueNode::Table(t) => {
            for e in t.entries().iter() {
                pairs(e.value(), &format!("{}.{}", path, name(e)), out)
            }
        }
        ValueNode::Array(a) => a.items().iter().for_each(|i| pairs(i, path, out)),
        ValueNode::Integer(i) => out.push((path.to_string(), i.syntax.text.clone())),
        ValueNode::String(s) => out.push((path.to_string(), s.content().to_string())),
        other => out.push((path.to_string(), format!("{:?}", other))),
    }
}

#[test]
fn values_stand_under_the_keys_they_were_written_with() {
    let root = dom(LARGE);
    assert!(root.errors().is_empty());
    let mut found = Vec::new();
    for e in root.entries().iter() {
        pairs(e.value(), &name(e), &mut found);
    }
    found.sort();
    let mut want: Vec<(String, String)> = [
        ("title", "x"),
        ("owner.name", "n"),
        ("owner.tags", "1"),
        ("owner.tags", "2"),
        ("owner.tags", "3"),
        ("owner.tags.p.q", "1"),
        ("server.alpha.ip", "10.0.0.1"),
        ("server.alpha.limits.cpu.max", "4"),
        ("server.name", "s"),
        ("fruit.name", "apple"),
        ("fruit.physical.color", "red"),
        ("fruit.variety.name", "gala"),
        ("fruit.variety.name", "fuji"),
        ("fruit.name", "banana"),
        ("fruit.info.inline.a.b.c", "1"),
        ("fruit.info.inline.d", "2"),
    ]
    .iter()
    .map(|(k, v)| (k.to_string(), v.to_string()))
    .collect();
    want.sort();
    assert_eq!(found, want);
}
