//! Small helpers on strings, seen as sequences of characters.

use vstd::prelude::*;

verus! {

/// Calls `String::push`: one character is added at the end.
#[verifier::external_body]
fn string_push(s: &mut String, c: char)
    ensures
        final(s)@ == old(s)@.push(c),
{
    s.push(c)
}

/// Adds the characters of `t` at the end of `s`.
pub fn string_append(s: &mut String, t: &String)
    ensures
        final(s)@ == old(s)@ + t@,
{
    s.append(t.as_str());
}

/// The characters of a string, in order.
pub fn chars_of(s: &str) -> (v: Vec<char>)
    ensures
        v@ == s@,
{
    let mut v: Vec<char> = Vec::new();
    for c in it: s.chars()
        invariant
            v@ == it.seq().take(it.index()),
    {
        v.push(c);
    }
    v
}

/// The string made of the characters `v[from..to]`.
pub fn string_of(v: &Vec<char>, from: usize, to: usize) -> (s: String)
    requires
        from <= to <= v.len(),
    ensures
        s@ == v@.subrange(from as int, to as int),
{
    let mut s = String::new();
    let mut i: usize = from;
    while i < to
        invariant
            from <= i <= to <= v.len(),
            s@ == v@.subrange(from as int, i as int),
        decreases to - i,
    {
        string_push(&mut s, v[i]);
        i += 1;
    }
    s
}

/// Whether `s` begins with `p`.
pub open spec fn starts_with(s: Seq<char>, p: Seq<char>) -> bool {
    p.len() <= s.len() && s.subrange(0, p.len() as int) == p
}

/// Whether `s[at..]` begins with `p`.
pub fn has_prefix_at(s: &Vec<char>, at: usize, p: &Vec<char>) -> (b: bool)
    requires
        at <= s.len(),
    ensures
        b == starts_with(s@.skip(at as int), p@),
{
    if p.len() > s.len() - at {
        return false;
    }
    let mut i: usize = 0;
    while i < p.len()
        invariant
            at <= s.len(),
            p.len() <= s.len() - at,
            i <= p.len(),
            forall|j: int| 0 <= j < i ==> s@[at + j] == p@[j],
        decreases p.len() - i,
    {
        if s[at + i] != p[i] {
            proof {
                let w = s@.skip(at as int).subrange(0, p.len() as int);
                assert(w[i as int] == s@[at + i]);
            }
            return false;
        }
        i += 1;
    }
    assert(s@.skip(at as int).subrange(0, p.len() as int) =~= p@);
    true
}

/// Whether `s` ends with `p`.
pub open spec fn ends_with(s: Seq<char>, p: Seq<char>) -> bool {
    p.len() <= s.len() && s.subrange(s.len() - p.len(), s.len() as int) == p
}

/// `s` without `p` at its start, if it starts with `p`.
pub open spec fn strip_prefix(s: Seq<char>, p: Seq<char>) -> Seq<char> {
    if starts_with(s, p) {
        s.skip(p.len() as int)
    } else {
        s
    }
}

/// `s` without `p` at its end, if it ends with `p`.
pub open spec fn strip_suffix(s: Seq<char>, p: Seq<char>) -> Seq<char> {
    if ends_with(s, p) {
        s.take(s.len() - p.len())
    } else {
        s
    }
}

/// Whether `s[from..to]` ends with `p`.
pub fn has_suffix_in(s: &Vec<char>, from: usize, to: usize, p: &Vec<char>) -> (b: bool)
    requires
        from <= to <= s.len(),
    ensures
        b == ends_with(s@.subrange(from as int, to as int), p@),
{
    if p.len() > to - from {
        return false;
    }
    let base: usize = to - p.len();
    let ghost w = s@.subrange(from as int, to as int);
    let mut i: usize = 0;
    while i < p.len()
        invariant
            w == s@.subrange(from as int, to as int),
            from <= base,
            base + p.len() == to,
            to <= s.len(),
            i <= p.len(),
            forall|j: int| 0 <= j < i ==> s@[base + j] == p@[j],
        decreases p.len() - i,
    {
        if s[base + i] != p[i] {
            proof {
                let t = w.subrange(w.len() - p.len(), w.len() as int);
                assert(t[i as int] == s@[base + i]);
            }
            return false;
        }
        i += 1;
    }
    assert(w.subrange(w.len() - p.len(), w.len() as int) =~= p@);
    true
}

/// The window of `s[from..to]` that is left when `open` is taken from its
/// start and `close` from its end, each only where it stands there.
pub fn strip_ends(s: &Vec<char>, from: usize, to: usize, open: &Vec<char>, close: &Vec<char>) -> (r:
    (usize, usize))
    requires
        from <= to <= s.len(),
    ensures
        from <= r.0 <= r.1 <= to,
        s@.subrange(r.0 as int, r.1 as int) == strip_suffix(
            strip_prefix(s@.subrange(from as int, to as int), open@),
            close@,
        ),
{
    let ghost whole = s@.subrange(from as int, to as int);
    let mut a: usize = from;
    proof {
        if open@.len() <= to - from {
            assert(s@.skip(from as int).subrange(0, open@.len() as int) =~= whole.subrange(
                0,
                open@.len() as int,
            ));
        }
    }
    if open.len() <= to - from && has_prefix_at(s, from, open) {
        a = from + open.len();
        assert(whole.skip(open@.len() as int) =~= s@.subrange(a as int, to as int));
    }
    let mut b: usize = to;
    if has_suffix_in(s, a, to, close) {
        b = to - close.len();
        assert(s@.subrange(a as int, to as int).take(b - a) =~= s@.subrange(a as int, b as int));
    }
    (a, b)
}

/// The value of a hexadecimal digit.
pub open spec fn hex_value(c: char) -> Option<int> {
    if '0' <= c <= '9' {
        Some(c as int - 48)
    } else if 'a' <= c <= 'f' {
        Some(c as int - 87)
    } else if 'A' <= c <= 'F' {
        Some(c as int - 55)
    } else {
        None
    }
}

/// The number that the `n` hexadecimal digits `s[at..at + n]` write, if all
/// of them are there.
pub open spec fn hex_run(s: Seq<char>, at: int, n: nat) -> Option<int>
    decreases n,
{
    if n == 0 {
        Some(0)
    } else if at < 0 || at + n > s.len() {
        None
    } else {
        match (hex_run(s, at, (n - 1) as nat), hex_value(s[at + n - 1])) {
            (Some(high), Some(digit)) => Some(high * 16 + digit),
            _ => None,
        }
    }
}

/// Whether `u` is a Unicode scalar value.
pub open spec fn is_scalar(u: int) -> bool {
    0 <= u <= 0xD7FF || 0xE000 <= u <= 0x10FFFF
}

/// Whether `c` is a blank: a space, a tab or a part of a line end.
pub open spec fn is_blank(c: char) -> bool {
    c == ' ' || c == '\t' || c == '\n' || c == '\r'
}

/// The first position from `at` on that holds no blank.
pub open spec fn blank_end(s: Seq<char>, at: int) -> int
    decreases s.len() - at,
{
    if 0 <= at < s.len() && is_blank(s[at]) {
        blank_end(s, at + 1)
    } else {
        at
    }
}

/// What stands for the escape or character at `s[at]`, and where the next
/// one begins; `None` where the escape is malformed.
pub open spec fn unescape_step(s: Seq<char>, at: int) -> Option<(Seq<char>, int)> {
    if s[at] != '\\' {
        Some((seq![s[at]], at + 1))
    } else if at + 1 >= s.len() {
        None
    } else {
        let c = s[at + 1];
        if c == 'b' {
            Some((seq!['\u{8}'], at + 2))
        } else if c == 't' {
            Some((seq!['\t'], at + 2))
        } else if c == 'n' {
            Some((seq!['\n'], at + 2))
        } else if c == 'f' {
            Some((seq!['\u{c}'], at + 2))
        } else if c == 'r' {
            Some((seq!['\r'], at + 2))
        } else if c == '"' {
            Some((seq!['"'], at + 2))
        } else if c == '\\' {
            Some((seq!['\\'], at + 2))
        } else if c == 'u' || c == 'U' {
            let n: nat = if c == 'u' { 4 } else { 8 };
            match hex_run(s, at + 2, n) {
                Some(u) => if is_scalar(u) {
                    Some((seq![u as char], at + 2 + n))
                } else {
                    None
                },
                None => None,
            }
        } else if c == '\n' {
            Some((Seq::empty(), blank_end(s, at + 2)))
        } else if c == '\r' && at + 2 < s.len() && s[at + 2] == '\n' {
            Some((Seq::empty(), blank_end(s, at + 3)))
        } else {
            None
        }
    }
}

/// `done` followed by what `s[at..]` stands for once its escapes are
/// resolved; `None` where an escape is malformed.
pub open spec fn unescape_run(s: Seq<char>, at: int, done: Seq<char>) -> Option<Seq<char>>
    decreases
            if at < s.len() {
                s.len() - at
            } else {
                0
            },
{
    if at < 0 || at >= s.len() {
        Some(done)
    } else {
        match unescape_step(s, at) {
            Some((out, next)) => if next > at {
                unescape_run(s, next, done + out)
            } else {
                None
            },
            None => None,
        }
    }
}

/// The text that a basic string stands for: a backslash with `b`, `t`,
/// `n`, `f`, `r`, `"` or `\` is that character, with `u` and four or `U` and
/// eight hexadecimal digits the character of that number, and before a line
/// end it is dropped with all blanks that follow it.
pub open spec fn unescape(s: Seq<char>) -> Option<Seq<char>> {
    unescape_run(s, 0, Seq::empty())
}

/// Calls `char::from_u32`: the character of a Unicode scalar value, and
/// `None` for any other number.
#[verifier::external_body]
fn char_from_u32(u: u32) -> (r: Option<char>)
    ensures
        r == if is_scalar(u as int) {
            Some(u as char)
        } else {
            None
        },
{
    char::from_u32(u)
}

/// The largest number that `n` hexadecimal digits can write, plus one.
pub open spec fn hex_cap(n: nat) -> int
    decreases n,
{
    if n == 0 {
        1
    } else {
        16 * hex_cap((n - 1) as nat)
    }
}

/// Up to eight hexadecimal digits write a number below 2^32.
proof fn lemma_hex_cap(n: nat)
    requires
        n <= 8,
    ensures
        1 <= hex_cap(n) <= 0x1_0000_0000,
    decreases 8 - n,
{
    reveal_with_fuel(hex_cap, 9);
}

/// Reads `n` hexadecimal digits at `s[at..]`.
fn read_hex(s: &Vec<char>, at: usize, n: usize) -> (r: Option<u32>)
    requires
        n <= 8,
        at <= s.len(),
    ensures
        match r {
            Some(u) => hex_run(s@, at as int, n as nat) == Some(u as int),
            None => hex_run(s@, at as int, n as nat) is None,
        },
{
    if n > s.len() - at {
        assert(hex_run(s@, at as int, n as nat) is None) by {
            lemma_hex_run_short(s@, at as int, n as nat);
        }
        return None;
    }
    let mut v: u64 = 0;
    let mut i: usize = 0;
    while i < n
        invariant
            i <= n <= 8,
            at + n <= s.len(),
            hex_run(s@, at as int, i as nat) == Some(v as int),
            0 <= v < hex_cap(i as nat),
        decreases n - i,
    {
        let c = s[at + i];
        let d: u64 = if '0' <= c && c <= '9' {
            (c as u32 - 48) as u64
        } else if 'a' <= c && c <= 'f' {
            (c as u32 - 87) as u64
        } else if 'A' <= c && c <= 'F' {
            (c as u32 - 55) as u64
        } else {
            assert(hex_run(s@, at as int, n as nat) is None) by {
                lemma_hex_run_bad(s@, at as int, n as nat, i as nat);
            }
            return None;
        };
        proof {
            lemma_hex_cap(i as nat);
            lemma_hex_cap((i + 1) as nat);
        }
        v = v * 16 + d;
        i += 1;
    }
    proof {
        lemma_hex_cap(n as nat);
    }
    Some(v as u32)
}

/// Digits that reach past the end of the text write no number.
proof fn lemma_hex_run_short(s: Seq<char>, at: int, n: nat)
    requires
        at + n > s.len(),
        n > 0,
    ensures
        hex_run(s, at, n) is None,
{
}

/// A run with a character that is no digit writes no number.
proof fn lemma_hex_run_bad(s: Seq<char>, at: int, n: nat, i: nat)
    requires
        0 <= at,
        i < n,
        at + n <= s.len(),
        hex_value(s[at + i]) is None,
    ensures
        hex_run(s, at, n) is None,
    decreases n,
{
    if i + 1 < n {
        lemma_hex_run_bad(s, at, (n - 1) as nat, i);
    }
}

/// Resolves the escapes of `s[from..to]`.
pub fn unescape_chars(s: &Vec<char>, from: usize, to: usize) -> (r: Option<String>)
    requires
        from <= to <= s.len(),
    ensures
        match r {
            Some(t) => unescape(s@.subrange(from as int, to as int)) == Some(t@),
            None => unescape(s@.subrange(from as int, to as int)) is None,
        },
{
    let ghost w = s@.subrange(from as int, to as int);
    let mut text: Vec<char> = Vec::new();
    let mut window: Vec<char> = Vec::new();
    let mut k: usize = from;
    while k < to
        invariant
            from <= k <= to <= s.len(),
            window@ == s@.subrange(from as int, k as int),
        decreases to - k,
    {
        window.push(s[k]);
        k += 1;
    }
    assert(window@ =~= w);
    let n = window.len();
    let mut at: usize = 0;
    while at < n
        invariant
            from <= to <= s.len(),
            w == s@.subrange(from as int, to as int),
            at <= n,
            n == window.len(),
            window@ == w,
            unescape(w) == unescape_run(w, at as int, text@),
        decreases n - at,
    {
        let c = window[at];
        let ghost prev = text@;
        assert(forall|x: char| prev.push(x) =~= prev + seq![x]);
        if c != '\\' {
            text.push(c);
            at += 1;
        } else if at + 1 >= n {
            return None;
        } else {
            let e = window[at + 1];
            if e == 'b' {
                text.push('\u{8}');
                at += 2;
            } else if e == 't' {
                text.push('\t');
                at += 2;
            } else if e == 'n' {
                text.push('\n');
                at += 2;
            } else if e == 'f' {
                text.push('\u{c}');
                at += 2;
            } else if e == 'r' {
                text.push('\r');
                at += 2;
            } else if e == '"' {
                text.push('"');
                at += 2;
            } else if e == '\\' {
                text.push('\\');
                at += 2;
            } else if e == 'u' || e == 'U' {
                let digits: usize = if e == 'u' { 4 } else { 8 };
                match read_hex(&window, at + 2, digits) {
                    Some(u) => match char_from_u32(u) {
                        Some(ch) => {
                            text.push(ch);
                            proof {
                                lemma_hex_run_len(w, at + 2, digits as nat);
                            }
                            at = at + 2 + digits;
                        },
                        None => {
                            return None;
                        },
                    },
                    None => {
                        return None;
                    },
                }
            } else if e == '\n' || (e == '\r' && at + 2 < n && window[at + 2] == '\n') {
                let mut next: usize = if e == '\n' { at + 2 } else { at + 3 };
                let ghost start = next as int;
                while next < n && (window[next] == ' ' || window[next] == '\t' || window[next]
                    == '\n' || window[next] == '\r')
                    invariant
                        start <= next <= n,
                        n == window.len(),
                        blank_end(window@, start) == blank_end(window@, next as int),
                    decreases n - next,
                {
                    next += 1;
                }
                assert(text@ + Seq::<char>::empty() =~= text@);
                at = next;
            } else {
                return None;
            }
        }
    }
    Some(string_of(&text, 0, text.len()))
}

/// A run of digits that writes a number lies within the text.
proof fn lemma_hex_run_len(s: Seq<char>, at: int, n: nat)
    requires
        hex_run(s, at, n) is Some,
        n > 0,
    ensures
        at + n <= s.len(),
{
}

} // verus!
