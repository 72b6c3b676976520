//! Keys: dotted paths of identifiers, compared by their segments.

use vstd::prelude::*;
use crate::range::TextRange;
use crate::syntax::{handle_of, Handle, SyntaxElement, SyntaxHandle, SyntaxKind};
use crate::text::{chars_of, string_append, string_of};

verus! {

/// One identifier token of a key.
#[derive(Debug)]
pub struct Ident {
    /// The token's text as written, quotes included.
    pub text: String,
    /// The segment that the token stands for: its text without the quotes.
    pub name: String,
    pub range: TextRange,
}

/// The mathematical value of an [`Ident`].
pub ghost struct Segment {
    pub text: Seq<char>,
    pub name: Seq<char>,
    pub range: TextRange,
}

impl View for Ident {
    type V = Segment;

    open spec fn view(&self) -> Segment {
        Segment { text: self.text@, name: self.name@, range: self.range }
    }
}

impl Clone for Ident {
    fn clone(&self) -> (r: Self)
        ensures
            r@ == self@,
    {
        Ident { text: self.text.clone(), name: self.name.clone(), range: self.range }
    }
}

/// The segment that an identifier's text stands for: a quoted identifier
/// without its first and last character, any other text as it is.
pub open spec fn unquote(t: Seq<char>) -> Seq<char> {
    if t.len() >= 2 && (t[0] == '"' || t[0] == '\'') {
        t.subrange(1, t.len() - 1)
    } else {
        t
    }
}

/// How many leading elements `a` and `b` share, counted from position `i`.
pub open spec fn common_run(a: Seq<Seq<char>>, b: Seq<Seq<char>>, i: nat) -> nat
    decreases a.len() - i,
{
    if i < a.len() && i < b.len() && a[i as int] == b[i as int] {
        common_run(a, b, i + 1)
    } else {
        i
    }
}

/// The segments `names[from..]` written with a dot before each.
pub open spec fn dotted_tail(names: Seq<Seq<char>>, n: nat) -> Seq<char>
    decreases n,
{
    if n <= 1 || n > names.len() {
        Seq::empty()
    } else {
        dotted_tail(names, (n - 1) as nat) + seq!['.'] + names[n - 1]
    }
}

/// The segments joined by dots.
pub open spec fn dotted(names: Seq<Seq<char>>) -> Seq<char> {
    if names.len() == 0 {
        Seq::empty()
    } else {
        names[0] + dotted_tail(names, names.len())
    }
}

/// The smallest range that holds the ranges of the first `n` segments.
pub open spec fn cover_segments(idents: Seq<Segment>, n: nat) -> TextRange
    decreases n,
{
    if n == 0 || n > idents.len() {
        TextRange::span(0, 0)
    } else if n == 1 {
        idents[0].range
    } else {
        cover_segments(idents, (n - 1) as nat).cover_spec(idents[n - 1].range)
    }
}

/// The mathematical value of a [`KeyNode`]: its visible segments and its
/// index among the arrays of tables.
pub ghost struct Key {
    pub syntax: Handle,
    pub idents: Seq<Segment>,
    pub index: usize,
}

impl Key {
    /// The segments of the key, as the strings that they stand for.
    pub open spec fn names(self) -> Seq<Seq<char>> {
        self.idents.map_values(|s: Segment| s.name)
    }

    pub open spec fn key_count(self) -> nat {
        self.idents.len()
    }

    /// The segments of `self` are the first segments of `other`.
    pub open spec fn is_part_of(self, other: Key) -> bool {
        self.names().is_prefix_of(other.names())
    }

    pub open spec fn contains(self, other: Key) -> bool {
        other.is_part_of(self)
    }

    /// The number of leading segments that the two keys share.
    pub open spec fn common_prefix_count(self, other: Key) -> nat {
        common_run(self.names(), other.names(), 0)
    }

    /// The same segments, whatever the indices.
    pub open spec fn eq_keys(self, other: Key) -> bool {
        self.key_count() == other.key_count() && self.is_part_of(other)
    }

    /// The same segments and the same index.
    pub open spec fn same(self, other: Key) -> bool {
        self.eq_keys(other) && self.index == other.index
    }

    /// How many segments `outer(n)` keeps: `n` of them, but at least one and
    /// no more than there are.
    pub open spec fn outer_count(self, n: nat) -> nat {
        if n >= self.idents.len() {
            self.idents.len()
        } else if n == 0 {
            1
        } else {
            n
        }
    }

    /// How many segments `inner(n)` drops: `n` of them, but one segment
    /// always stays.
    pub open spec fn inner_skip(self, n: nat) -> nat {
        if self.idents.len() == 0 {
            0
        } else if n >= self.idents.len() {
            (self.idents.len() - 1) as nat
        } else {
            n
        }
    }

    pub open spec fn outer(self, n: nat) -> Key {
        Key { idents: self.idents.take(self.outer_count(n) as int), ..self }
    }

    pub open spec fn inner(self, n: nat) -> Key {
        Key { idents: self.idents.skip(self.inner_skip(n) as int), ..self }
    }

    /// The segments of `other` followed by those of `self`, with the index of
    /// `other`.
    pub open spec fn with_prefix(self, other: Key) -> Key {
        Key { idents: other.idents + self.idents, index: other.index, ..self }
    }

    /// The key without the leading segments that it shares with `other`.
    pub open spec fn without_prefix(self, other: Key) -> Key {
        let count = self.common_prefix_count(other);
        if count > 0 {
            self.inner(count)
        } else {
            self
        }
    }

    pub open spec fn with_index(self, index: usize) -> Key {
        Key { index, ..self }
    }

    /// The key without its last segment.
    pub open spec fn prefix(self) -> Key {
        self.outer((self.key_count() - 1) as nat)
    }

    /// The last segment of the key.
    pub open spec fn last(self) -> Key {
        self.inner(self.key_count())
    }

    pub open spec fn full_key_string(self) -> Seq<char> {
        dotted(self.names())
    }

    /// The smallest range that holds every segment.
    pub open spec fn text_range(self) -> TextRange {
        cover_segments(self.idents, self.idents.len())
    }

    /// What keys are compared and hashed by: the segments and the index.
    pub open spec fn identity(self) -> (Seq<Seq<char>>, usize) {
        (self.names(), self.index)
    }
}

/// `is_part_of` is reflexive.
pub proof fn lemma_part_of_reflexive(a: Key)
    ensures
        a.is_part_of(a),
{
    assert(a.names() =~= a.names().subrange(0, a.names().len() as int));
}

/// `is_part_of` is transitive.
pub proof fn lemma_part_of_transitive(a: Key, b: Key, c: Key)
    requires
        a.is_part_of(b),
        b.is_part_of(c),
    ensures
        a.is_part_of(c),
{
    let (x, y, z) = (a.names(), b.names(), c.names());
    assert forall|i: int| 0 <= i < x.len() implies x[i] == z[i] by {
        assert(x[i] == y.subrange(0, x.len() as int)[i]);
        assert(y[i] == z.subrange(0, y.len() as int)[i]);
    }
    assert(x =~= z.subrange(0, x.len() as int));
}

/// Two keys that are part of each other have the same segments.
pub proof fn lemma_part_of_antisymmetric(a: Key, b: Key)
    requires
        a.is_part_of(b),
        b.is_part_of(a),
    ensures
        a.eq_keys(b),
        a.names() == b.names(),
{
    assert(a.names().len() == b.names().len());
    assert(b.names() =~= b.names().subrange(0, a.names().len() as int));
}

/// The run of shared segments, counted from `i`, stays within both keys,
/// covers only equal segments and stops at the first difference.
pub proof fn lemma_common_run(a: Seq<Seq<char>>, b: Seq<Seq<char>>, i: nat)
    requires
        i <= a.len(),
        i <= b.len(),
    ensures
        i <= common_run(a, b, i) <= a.len(),
        common_run(a, b, i) <= b.len(),
        forall|j: int| i <= j < common_run(a, b, i) ==> a[j] == b[j],
        common_run(a, b, i) < a.len() && common_run(a, b, i) < b.len() ==> a[common_run(
            a,
            b,
            i,
        ) as int] != b[common_run(a, b, i) as int],
    decreases a.len() - i,
{
    if i < a.len() && i < b.len() && a[i as int] == b[i as int] {
        lemma_common_run(a, b, i + 1);
    }
}

/// A key that is part of another shares all of its own segments with it.
pub proof fn lemma_common_of_part(a: Key, b: Key)
    requires
        a.is_part_of(b),
    ensures
        a.common_prefix_count(b) == a.key_count(),
        b.common_prefix_count(a) == a.key_count(),
{
    let (x, y) = (a.names(), b.names());
    lemma_common_run(x, y, 0);
    lemma_common_run(y, x, 0);
    assert forall|j: int| 0 <= j < x.len() implies x[j] == y[j] by {
        assert(x[j] == y.subrange(0, x.len() as int)[j]);
    }
}

/// Putting a prefix before a key and taking the same prefix away again gives
/// back the segments of the key.
pub proof fn lemma_prefix_round_trip(k: Key, p: Key)
    requires
        k.key_count() >= 1,
    ensures
        k.with_prefix(p).without_prefix(p).idents == k.idents,
        k.with_prefix(p).without_prefix(p).names() == k.names(),
{
    let w = k.with_prefix(p);
    assert(p.names() =~= w.names().subrange(0, p.names().len() as int));
    lemma_common_of_part(p, w);
    if p.key_count() > 0 {
        assert(w.inner(p.key_count()).idents =~= k.idents);
    } else {
        assert(w.idents =~= k.idents);
    }
}

/// For `1 <= n < key_count`, the first `n` segments followed by the rest are
/// the key: `outer(n).inner(0)` and `inner(n)` split it in two.
pub proof fn lemma_outer_inner_split(k: Key, n: nat)
    requires
        1 <= n < k.key_count(),
    ensures
        k.outer(n).inner(0).idents + k.inner(n).idents == k.idents,
        k.outer(n).inner(0).names() + k.inner(n).names() == k.names(),
{
    assert(k.outer(n).inner(0).idents =~= k.idents.take(n as int));
    assert(k.idents.take(n as int) + k.idents.skip(n as int) =~= k.idents);
    assert(k.outer(n).inner(0).names() + k.inner(n).names() =~= k.names());
}

/// A key of a document: the identifier tokens of a dotted path, of which a
/// window is visible, and the index that tells apart the tables of one array.
#[derive(Debug)]
pub struct KeyNode {
    pub syntax: SyntaxHandle,
    /// How many identifiers are hidden at the front.
    pub mask_left: usize,
    /// How many identifiers are hidden at the back.
    pub mask_right: usize,
    /// How many identifiers are visible; never 0.
    pub mask_visible: usize,
    pub idents: Vec<Ident>,
    pub index: usize,
}

impl View for KeyNode {
    type V = Key;

    open spec fn view(&self) -> Key {
        Key {
            syntax: self.syntax@,
            idents: Seq::new(
                self.mask_visible as nat,
                |i: int| self.idents@[self.mask_left + i]@,
            ),
            index: self.index,
        }
    }
}

impl KeyNode {
    /// The window of visible identifiers lies within the identifiers and is
    /// not empty.
    pub open spec fn wf(&self) -> bool {
        &&& self.mask_visible >= 1
        &&& self.mask_left + self.mask_visible + self.mask_right == self.idents.len()
    }
}

impl Clone for KeyNode {
    fn clone(&self) -> (r: Self)
        ensures
            self.wf() ==> r.wf() && r@ == self@,
    {
        let mut idents: Vec<Ident> = Vec::new();
        let mut i: usize = 0;
        while i < self.idents.len()
            invariant
                i <= self.idents.len(),
                idents.len() == i,
                forall|j: int| 0 <= j < i ==> (#[trigger] idents@[j])@ == self.idents@[j]@,
            decreases self.idents.len() - i,
        {
            idents.push(self.idents[i].clone());
            i += 1;
        }
        let r = KeyNode {
            syntax: self.syntax.clone(),
            mask_left: self.mask_left,
            mask_right: self.mask_right,
            mask_visible: self.mask_visible,
            idents,
            index: self.index,
        };
        proof {
            if self.wf() {
                assert(r@.idents =~= self@.idents);
            }
        }
        r
    }
}

/// The views of a sequence of identifiers.
pub open spec fn segments_of(v: Seq<Ident>) -> Seq<Segment> {
    v.map_values(|i: Ident| i@)
}

/// The views of a sequence of strings.
pub open spec fn strings_of(v: Seq<String>) -> Seq<Seq<char>> {
    v.map_values(|s: String| s@)
}

/// The segment that an identifier token stands for, if `c` is one.
pub open spec fn segment_of(c: SyntaxElement) -> Option<Segment> {
    if c.token && c.kind == SyntaxKind::IDENT {
        Some(Segment { text: c.text@, name: unquote(c.text@), range: c.range })
    } else {
        None
    }
}

/// The key that a `KEY` node with at least one identifier stands for.
pub open spec fn key_of(e: SyntaxElement) -> Option<Key> {
    let idents = e.children@.filter_map(|c: SyntaxElement| segment_of(c));
    if e.kind != SyntaxKind::KEY || e.token || idents.len() == 0 {
        None
    } else {
        Some(Key { syntax: handle_of(e), idents, index: 0 })
    }
}

/// The text of an identifier without its quotes.
pub fn unquoted(text: &String) -> (name: String)
    ensures
        name@ == unquote(text@),
{
    let chars = chars_of(text.as_str());
    let n = chars.len();
    if n >= 2 && (chars[0] == '"' || chars[0] == '\'') {
        string_of(&chars, 1, n - 1)
    } else {
        text.clone()
    }
}

impl KeyNode {
    /// The visible identifier at position `i`.
    fn ident(&self, i: usize) -> (r: &Ident)
        requires
            self.wf(),
            i < self.mask_visible,
        ensures
            r@ == self@.idents[i as int],
            r.name@ == self@.names()[i as int],
    {
        &self.idents[self.mask_left + i]
    }

    /// The visible identifier tokens, in order.
    pub fn idents(&self) -> (r: Vec<Ident>)
        requires
            self.wf(),
        ensures
            segments_of(r@) == self@.idents,
    {
        let mut r: Vec<Ident> = Vec::new();
        let mut i: usize = 0;
        while i < self.mask_visible
            invariant
                self.wf(),
                i <= self.mask_visible,
                r.len() == i,
                forall|j: int| 0 <= j < i ==> (#[trigger] r@[j])@ == self@.idents[j],
            decreases self.mask_visible - i,
        {
            r.push(self.ident(i).clone());
            i += 1;
        }
        assert(segments_of(r@) =~= self@.idents);
        r
    }

    pub fn key_count(&self) -> (n: usize)
        ensures
            n == self@.key_count(),
    {
        self.mask_visible
    }

    /// The segments of the key, as the strings that they stand for.
    pub fn keys_str(&self) -> (r: Vec<String>)
        requires
            self.wf(),
        ensures
            strings_of(r@) == self@.names(),
    {
        let mut r: Vec<String> = Vec::new();
        let mut i: usize = 0;
        while i < self.mask_visible
            invariant
                self.wf(),
                i <= self.mask_visible,
                r.len() == i,
                forall|j: int| 0 <= j < i ==> (#[trigger] r@[j])@ == self@.names()[j],
            decreases self.mask_visible - i,
        {
            r.push(self.ident(i).name.clone());
            i += 1;
        }
        assert(strings_of(r@) =~= self@.names());
        r
    }

    /// The segments joined by dots.
    pub fn full_key_string(&self) -> (s: String)
        requires
            self.wf(),
        ensures
            s@ == self@.full_key_string(),
    {
        let mut s = self.ident(0).name.clone();
        let mut i: usize = 1;
        while i < self.mask_visible
            invariant
                self.wf(),
                1 <= i <= self.mask_visible,
                s@ == self@.names()[0] + dotted_tail(self@.names(), i as nat),
            decreases self.mask_visible - i,
        {
            s.append(".");
            string_append(&mut s, &self.ident(i).name);
            proof {
                reveal_strlit(".");
                assert("."@ =~= seq!['.']);
            }
            i += 1;
        }
        s
    }

    /// Whether the segments of `self` are the first segments of `other`.
    pub fn is_part_of(&self, other: &KeyNode) -> (b: bool)
        requires
            self.wf(),
            other.wf(),
        ensures
            b == self@.is_part_of(other@),
    {
        if other.mask_visible < self.mask_visible {
            return false;
        }
        let mut i: usize = 0;
        while i < self.mask_visible
            invariant
                self.wf(),
                other.wf(),
                i <= self.mask_visible <= other.mask_visible,
                forall|j: int| 0 <= j < i ==> self@.names()[j] == other@.names()[j],
            decreases self.mask_visible - i,
        {
            if !(self.ident(i).name == other.ident(i).name) {
                proof {
                    let w = other@.names().subrange(0, self@.names().len() as int);
                    assert(w[i as int] == other@.names()[i as int]);
                }
                return false;
            }
            i += 1;
        }
        assert(self@.names() =~= other@.names().subrange(0, self@.names().len() as int));
        true
    }

    /// Whether the segments of `other` are the first segments of `self`.
    pub fn contains(&self, other: &KeyNode) -> (b: bool)
        requires
            self.wf(),
            other.wf(),
        ensures
            b == self@.contains(other@),
    {
        other.is_part_of(self)
    }

    /// Keeps `n` identifiers from the left; at least one stays.
    pub fn outer(self, n: usize) -> (r: KeyNode)
        requires
            self.wf(),
        ensures
            r.wf(),
            r@ == self@.outer(n as nat),
    {
        let rest: usize = if n <= self.mask_visible {
            self.mask_visible - n
        } else {
            0
        };
        let skip: usize = if self.mask_visible - 1 < rest {
            self.mask_visible - 1
        } else {
            rest
        };
        let ghost before = self@;
        let mut r = self;
        r.mask_right = r.mask_right + skip;
        r.mask_visible = r.mask_visible - skip;
        assert(r@.idents =~= before.outer(n as nat).idents);
        r
    }

    /// Skips `n` identifiers from the left; at least one stays.
    pub fn inner(self, n: usize) -> (r: KeyNode)
        requires
            self.wf(),
        ensures
            r.wf(),
            r@ == self@.inner(n as nat),
    {
        let skip: usize = if self.mask_visible - 1 < n {
            self.mask_visible - 1
        } else {
            n
        };
        let ghost before = self@;
        let mut r = self;
        r.mask_left = r.mask_left + skip;
        r.mask_visible = r.mask_visible - skip;
        assert(r@.idents =~= before.inner(n as nat).idents);
        r
    }

    /// The number of leading segments that the two keys share.
    pub fn common_prefix_count(&self, other: &KeyNode) -> (n: usize)
        requires
            self.wf(),
            other.wf(),
        ensures
            n == self@.common_prefix_count(other@),
            n <= self@.key_count(),
            n <= other@.key_count(),
    {
        let mut count: usize = 0;
        while count < self.mask_visible && count < other.mask_visible
            invariant
                self.wf(),
                other.wf(),
                count <= self.mask_visible,
                count <= other.mask_visible,
                self@.common_prefix_count(other@) == common_run(
                    self@.names(),
                    other@.names(),
                    count as nat,
                ),
            decreases self.mask_visible - count,
        {
            if !(self.ident(count).name == other.ident(count).name) {
                return count;
            }
            count += 1;
        }
        count
    }

    /// Whether the two keys have the same segments, whatever their indices.
    pub fn eq_keys(&self, other: &KeyNode) -> (b: bool)
        requires
            self.wf(),
            other.wf(),
        ensures
            b == self@.eq_keys(other@),
    {
        self.key_count() == other.key_count() && self.is_part_of(other)
    }

    /// Whether the two keys have the same segments and the same index.
    pub fn same(&self, other: &KeyNode) -> (b: bool)
        requires
            self.wf(),
            other.wf(),
        ensures
            b == self@.same(other@),
    {
        self.eq_keys(other) && self.index == other.index
    }

    /// Puts the visible identifiers of `other` before those of `self`, and
    /// takes over the index of `other`.
    pub fn with_prefix(self, other: &KeyNode) -> (r: KeyNode)
        requires
            self.wf(),
            other.wf(),
        ensures
            r.wf(),
            r@ == self@.with_prefix(other@),
    {
        let mut idents: Vec<Ident> = Vec::new();
        let mut i: usize = 0;
        while i < other.mask_visible
            invariant
                other.wf(),
                i <= other.mask_visible,
                idents.len() == i,
                forall|j: int| 0 <= j < i ==> (#[trigger] idents@[j])@ == other@.idents[j],
            decreases other.mask_visible - i,
        {
            idents.push(other.ident(i).clone());
            i += 1;
        }
        let mut k: usize = 0;
        while k < self.mask_visible
            invariant
                self.wf(),
                other.wf(),
                k <= self.mask_visible,
                idents.len() == other.mask_visible + k,
                forall|j: int|
                    0 <= j < other.mask_visible ==> (#[trigger] idents@[j])@ == other@.idents[j],
                forall|j: int|
                    0 <= j < k ==> (#[trigger] idents@[other.mask_visible + j])@
                        == self@.idents[j],
            decreases self.mask_visible - k,
        {
            idents.push(self.ident(k).clone());
            k += 1;
        }
        let r = KeyNode {
            syntax: self.syntax,
            mask_left: 0,
            mask_right: 0,
            mask_visible: idents.len(),
            idents,
            index: other.index,
        };
        proof {
            let want = self@.with_prefix(other@);
            assert forall|j: int| 0 <= j < r@.idents.len() implies r@.idents[j]
                == want.idents[j] by {
                if j >= other.mask_visible {
                    let d = j - other.mask_visible;
                    assert(r.idents@[other.mask_visible + d]@ == self@.idents[d]);
                }
            }
            assert(r@.idents =~= want.idents);
        }
        r
    }

    /// Drops the leading segments that the key shares with `other`; at least
    /// one segment stays.
    pub fn without_prefix(self, other: &KeyNode) -> (r: KeyNode)
        requires
            self.wf(),
            other.wf(),
        ensures
            r.wf(),
            r@ == self@.without_prefix(other@),
    {
        let count = self.common_prefix_count(other);
        if count > 0 {
            self.inner(count)
        } else {
            self
        }
    }

    pub fn with_index(self, index: usize) -> (r: KeyNode)
        ensures
            self.wf() ==> r.wf(),
            r@ == self@.with_index(index),
    {
        let mut r = self;
        r.index = index;
        r
    }

    /// The key without its last segment; a key of one segment stays as it is.
    pub fn prefix(self) -> (r: KeyNode)
        requires
            self.wf(),
        ensures
            r.wf(),
            r@ == self@.prefix(),
    {
        let count = self.key_count();
        self.outer(count - 1)
    }

    /// The last segment of the key.
    pub fn last(self) -> (r: KeyNode)
        requires
            self.wf(),
        ensures
            r.wf(),
            r@ == self@.last(),
    {
        let count = self.key_count();
        self.inner(count)
    }

    /// The smallest range that holds every visible identifier.
    pub fn text_range(&self) -> (r: TextRange)
        requires
            self.wf(),
        ensures
            r == self@.text_range(),
    {
        let mut r = self.ident(0).range;
        let mut i: usize = 1;
        while i < self.mask_visible
            invariant
                self.wf(),
                1 <= i <= self.mask_visible,
                r == cover_segments(self@.idents, i as nat),
            decreases self.mask_visible - i,
        {
            r = r.cover(self.ident(i).range);
            i += 1;
        }
        r
    }

    /// What keys are compared and hashed by: the segments and the index.
    pub fn identity(&self) -> (r: (Vec<String>, usize))
        requires
            self.wf(),
        ensures
            (strings_of(r.0@), r.1) == self@.identity(),
    {
        (self.keys_str(), self.index)
    }

    /// Lifts a `KEY` node: its identifier tokens become the segments. There
    /// is no key without an identifier.
    pub fn cast(element: &SyntaxElement) -> (r: Option<KeyNode>)
        ensures
            match r {
                Some(k) => k.wf() && key_of(*element) == Some(k@),
                None => key_of(*element) is None,
            },
    {
        if element.kind != SyntaxKind::KEY || element.token {
            return None;
        }
        let ghost pick = |c: SyntaxElement| segment_of(c);
        let mut idents: Vec<Ident> = Vec::new();
        let mut i: usize = 0;
        while i < element.children.len()
            invariant
                i <= element.children.len(),
                pick == |c: SyntaxElement| segment_of(c),
                segments_of(idents@) == element.children@.take(i as int).filter_map(pick),
            decreases element.children.len() - i,
        {
            let c = &element.children[i];
            proof {
                element.children@.lemma_filter_map_take_succ(pick, i as int);
            }
            if c.token && c.kind == SyntaxKind::IDENT {
                let ghost before = idents@;
                let ident = Ident { text: c.text.clone(), name: unquoted(&c.text), range: c.range };
                idents.push(ident);
                assert(segments_of(idents@) =~= segments_of(before).push(ident@));
            }
            i += 1;
        }
        assert(element.children@.take(i as int) =~= element.children@);
        if idents.len() == 0 {
            return None;
        }
        let r = KeyNode {
            mask_left: 0,
            mask_right: 0,
            mask_visible: idents.len(),
            idents,
            index: 0,
            syntax: element.handle(),
        };
        assert(r@.idents =~= segments_of(r.idents@));
        Some(r)
    }
}

} // verus!
