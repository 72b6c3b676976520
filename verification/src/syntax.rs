//! The lossless syntax tree that the document model is lifted from.

use vstd::prelude::*;
use crate::range::TextRange;
use crate::text::string_append;

verus! {

/// The kinds of tokens and nodes in a syntax tree.
#[allow(non_camel_case_types)]
#[derive(Clone, Copy, Debug, PartialEq, Eq, Structural, Hash)]
pub enum SyntaxKind {
    WHITESPACE,
    NEWLINE,
    COMMENT,
    IDENT,
    PERIOD,
    COMMA,
    EQ,
    STRING,
    MULTI_LINE_STRING,
    STRING_LITERAL,
    MULTI_LINE_STRING_LITERAL,
    INTEGER,
    INTEGER_HEX,
    INTEGER_OCT,
    INTEGER_BIN,
    FLOAT,
    BOOL,
    DATE,
    BRACKET_START,
    BRACKET_END,
    BRACE_START,
    BRACE_END,
    ERROR,
    KEY,
    VALUE,
    TABLE_HEADER,
    TABLE_ARRAY_HEADER,
    ENTRY,
    ARRAY,
    INLINE_TABLE,
    ROOT,
}

/// One element of a syntax tree: a token with its text, or a node with its
/// children.
#[derive(Debug)]
pub struct SyntaxElement {
    pub kind: SyntaxKind,
    pub range: TextRange,
    /// Whether this element is a token. A token has text and no children.
    pub token: bool,
    pub text: String,
    pub children: Vec<SyntaxElement>,
}

/// What a document node remembers of the syntax element it came from:
/// its kind, its range and its text.
#[derive(Debug)]
pub struct SyntaxHandle {
    pub kind: SyntaxKind,
    pub range: TextRange,
    pub text: String,
}

/// The mathematical value of a [`SyntaxHandle`].
pub ghost struct Handle {
    pub kind: SyntaxKind,
    pub range: TextRange,
    pub text: Seq<char>,
}

impl View for SyntaxHandle {
    type V = Handle;

    open spec fn view(&self) -> Handle {
        Handle { kind: self.kind, range: self.range, text: self.text@ }
    }
}

impl Clone for SyntaxHandle {
    fn clone(&self) -> (r: Self)
        ensures
            r@ == self@,
    {
        SyntaxHandle { kind: self.kind, range: self.range, text: self.text.clone() }
    }
}

/// The text of the first `n` children of `e`, one after the other.
pub open spec fn children_text(e: SyntaxElement, n: nat) -> Seq<char>
    decreases e, n,
{
    if n == 0 || n > e.children.len() {
        Seq::empty()
    } else {
        children_text(e, (n - 1) as nat) + full_text(e.children[n - 1])
    }
}

/// The source text that an element spans: a token's own text, a node's
/// tokens one after the other.
pub open spec fn full_text(e: SyntaxElement) -> Seq<char>
    decreases e, e.children.len() + 1,
{
    if e.token {
        e.text@
    } else {
        children_text(e, e.children.len() as nat)
    }
}

/// The handle that a document node keeps of `e`.
pub open spec fn handle_of(e: SyntaxElement) -> Handle {
    Handle { kind: e.kind, range: e.range, text: full_text(e) }
}

impl SyntaxElement {
    /// A token of the given kind and text.
    pub fn token(kind: SyntaxKind, range: TextRange, text: &str) -> (e: SyntaxElement)
        ensures
            e.kind == kind,
            e.range == range,
            e.token,
            e.text@ == text@,
            e.children@ == Seq::<SyntaxElement>::empty(),
    {
        SyntaxElement { kind, range, token: true, text: text.to_owned(), children: Vec::new() }
    }

    /// A node of the given kind with the given children.
    pub fn node(kind: SyntaxKind, range: TextRange, children: Vec<SyntaxElement>) -> (e:
        SyntaxElement)
        ensures
            e.kind == kind,
            e.range == range,
            !e.token,
            e.children == children,
    {
        SyntaxElement { kind, range, token: false, text: String::new(), children }
    }

    pub fn kind(&self) -> (k: SyntaxKind)
        ensures
            k == self.kind,
    {
        self.kind
    }

    pub fn text_range(&self) -> (r: TextRange)
        ensures
            r == self.range,
    {
        self.range
    }

    /// The source text that the element spans.
    pub fn text(&self) -> (s: String)
        ensures
            s@ == full_text(*self),
        decreases *self,
    {
        if self.token {
            return self.text.clone();
        }
        let mut s = String::new();
        let mut i: usize = 0;
        while i < self.children.len()
            invariant
                i <= self.children.len(),
                s@ == children_text(*self, i as nat),
            decreases self.children.len() - i,
        {
            let part = self.children[i].text();
            string_append(&mut s, &part);
            i += 1;
        }
        s
    }

    /// The handle that a document node keeps of this element.
    pub fn handle(&self) -> (h: SyntaxHandle)
        ensures
            h@ == handle_of(*self),
    {
        SyntaxHandle { kind: self.kind, range: self.range, text: self.text() }
    }

    /// The first child that is a node, if there is one.
    pub fn first_child(&self) -> (r: Option<usize>)
        ensures
            r == first_node_from(self.children@, 0),
            r matches Some(i) ==> i < self.children.len() && !self.children[i as int].token,
    {
        first_node_at(&self.children, 0)
    }
}

/// The position of the first node among `children[from..]`.
pub open spec fn first_node_from(children: Seq<SyntaxElement>, from: int) -> Option<usize>
    decreases children.len() - from,
{
    if from < 0 || from >= children.len() {
        None
    } else if !children[from].token {
        Some(from as usize)
    } else {
        first_node_from(children, from + 1)
    }
}

/// The position of the first node among `children[from..]`.
pub fn first_node_at(children: &Vec<SyntaxElement>, from: usize) -> (r: Option<usize>)
    ensures
        r == first_node_from(children@, from as int),
        r matches Some(i) ==> from <= i < children.len() && !children[i as int].token,
{
    let mut i: usize = from;
    while i < children.len()
        invariant
            from <= i,
            first_node_from(children@, from as int) == first_node_from(children@, i as int),
        decreases children.len() - i,
    {
        if !children[i].token {
            return Some(i);
        }
        i += 1;
    }
    None
}

} // verus!
