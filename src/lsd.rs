//! The configuration language: a tree of levels (ordered maps from string keys
//! to nodes) and scalar values, read from text.
use vstd::prelude::*;

use crate::text::chars_of;
use crate::text::find_word_end;
use crate::text::push_char;
use crate::text::skip_space;
use crate::text::skip_spaces;
use crate::text::string_of;
use crate::text::trim_range;
use crate::text::trimmed;
use crate::text::u16_from_4_hex_chars;
use crate::text::hex4_value;
use crate::text::views;
use crate::text::word_end;

verus! {

/// A parsed node: a scalar value, or a level of keyed children kept in the
/// order in which they were declared.
#[derive(Debug)]
pub enum LSD {
    Value(String),
    Level(Level),
}

/// An insertion-ordered map from keys to nodes; no key occurs twice.
#[derive(Debug)]
pub struct Level {
    pub entries: Vec<(String, LSD)>,
}

/// The mathematical form of a node.
pub enum Node {
    Value(Seq<char>),
    Level(Seq<(Seq<char>, Node)>),
}

/// The mathematical form of a parse error.
pub enum Fault {
    ReadFailure(Seq<char>),
    EmptyWhenExpectedValue,
    UnexpectedNonEmptyInlineLevel,
    UnexpectedLevelEnd,
    UnexpectedAfterLevelEnd,
    UnexpectedListEnd,
    UnexpectedAfterListEnd,
    UnexpectedStringEnd,
    UnexpectedCharEscapeEnd,
    UnexpectedCharEscapeUnicode,
    KeyCollisionValueWhenShouldBeLevel,
    KeyCollisionValueAlreadyExists(Seq<char>),
}

/// Why a configuration text does not read.
#[derive(Debug, Clone)]
pub enum LSDParseError {
    /// The text could not be read; holds the reader's message.
    ReadFailure(String),
    EmptyWhenExpectedValue,
    UnexpectedNonEmptyInlineLevel,
    UnexpectedLevelEnd,
    UnexpectedAfterLevelEnd,
    UnexpectedListEnd,
    UnexpectedAfterListEnd,
    UnexpectedStringEnd,
    UnexpectedCharEscapeEnd,
    UnexpectedCharEscapeUnicode,
    KeyCollisionValueWhenShouldBeLevel,
    KeyCollisionValueAlreadyExists(String),
}

impl View for LSDParseError {
    type V = Fault;

    open spec fn view(&self) -> Fault {
        match self {
            LSDParseError::ReadFailure(m) => Fault::ReadFailure(m@),
            LSDParseError::EmptyWhenExpectedValue => Fault::EmptyWhenExpectedValue,
            LSDParseError::UnexpectedNonEmptyInlineLevel => Fault::UnexpectedNonEmptyInlineLevel,
            LSDParseError::UnexpectedLevelEnd => Fault::UnexpectedLevelEnd,
            LSDParseError::UnexpectedAfterLevelEnd => Fault::UnexpectedAfterLevelEnd,
            LSDParseError::UnexpectedListEnd => Fault::UnexpectedListEnd,
            LSDParseError::UnexpectedAfterListEnd => Fault::UnexpectedAfterListEnd,
            LSDParseError::UnexpectedStringEnd => Fault::UnexpectedStringEnd,
            LSDParseError::UnexpectedCharEscapeEnd => Fault::UnexpectedCharEscapeEnd,
            LSDParseError::UnexpectedCharEscapeUnicode => Fault::UnexpectedCharEscapeUnicode,
            LSDParseError::KeyCollisionValueWhenShouldBeLevel => Fault::KeyCollisionValueWhenShouldBeLevel,
            LSDParseError::KeyCollisionValueAlreadyExists(k) => Fault::KeyCollisionValueAlreadyExists(k@),
        }
    }
}

/// The mathematical form of a level: its keyed entries in order.
pub type Entries = Seq<(Seq<char>, Node)>;

/// The mathematical form of a node of the tree.
pub open spec fn node_of(l: LSD) -> Node
    decreases l,
{
    match l {
        LSD::Value(v) => Node::Value(v@),
        LSD::Level(lv) => Node::Level(entries_of(lv.entries@)),
    }
}

/// The mathematical form of a level's entries.
pub open spec fn entries_of(e: Seq<(String, LSD)>) -> Entries
    decreases e,
{
    if e.len() == 0 {
        Seq::empty()
    } else {
        seq![(e[0].0@, node_of(e[0].1))] + entries_of(e.drop_first())
    }
}

/// Number of nodes in a tree.
pub open spec fn lsd_size(l: LSD) -> nat
    decreases l,
{
    match l {
        LSD::Value(_) => 1,
        LSD::Level(lv) => 1 + entries_size(lv.entries@),
    }
}

/// Number of nodes under a level's entries.
pub open spec fn entries_size(e: Seq<(String, LSD)>) -> nat
    decreases e,
{
    if e.len() == 0 {
        0
    } else {
        lsd_size(e[0].1) + entries_size(e.drop_first())
    }
}

impl View for LSD {
    type V = Node;

    open spec fn view(&self) -> Node {
        node_of(*self)
    }
}

impl View for Level {
    type V = Entries;

    open spec fn view(&self) -> Entries {
        entries_of(self.entries@)
    }
}

pub proof fn lemma_entries_of(e: Seq<(String, LSD)>)
    ensures
        entries_of(e).len() == e.len(),
        forall|i: int| 0 <= i < e.len() ==> #[trigger] entries_of(e)[i] == (e[i].0@, node_of(e[i].1)),
    decreases e.len(),
{
    if e.len() > 0 {
        lemma_entries_of(e.drop_first());
        assert forall|i: int| 0 <= i < e.len() implies #[trigger] entries_of(e)[i] == (
            e[i].0@,
            node_of(e[i].1),
        ) by {
            if i > 0 {
                assert(entries_of(e)[i] == entries_of(e.drop_first())[i - 1]);
            }
        }
    }
}

//
// Lookup and merge over the mathematical form
//

/// First index at or after `i` whose key is `k`.
pub open spec fn find_from(e: Entries, k: Seq<char>, i: int) -> Option<int>
    decreases e.len() - i,
{
    if i < 0 || i >= e.len() {
        None
    } else if e[i].0 == k {
        Some(i)
    } else {
        find_from(e, k, i + 1)
    }
}

/// Index of the entry with key `k`.
pub open spec fn find(e: Entries, k: Seq<char>) -> Option<int> {
    find_from(e, k, 0)
}

pub proof fn lemma_find_from(e: Entries, k: Seq<char>, i: int)
    requires
        0 <= i,
    ensures
        find_from(e, k, i) matches Some(j) ==> i <= j < e.len() && e[j].0 == k && forall|m: int|
            i <= m < j ==> e[m].0 != k,
        find_from(e, k, i) is None ==> forall|m: int| i <= m < e.len() ==> e[m].0 != k,
    decreases e.len() - i,
{
    if i < e.len() && e[i].0 != k {
        lemma_find_from(e, k, i + 1);
    }
}

/// Whether no key occurs twice among the entries.
pub open spec fn keys_unique(e: Entries) -> bool {
    forall|i: int, j: int| 0 <= i < j < e.len() ==> e[i].0 != e[j].0
}

/// Merges one keyed node into a level: a value may only take a fresh key; a
/// level merges child by child into a level of the same key.
pub open spec fn merge_one(into: Entries, k: Seq<char>, v: Node) -> Result<Entries, Fault>
    decreases v,
{
    match v {
        Node::Value(x) => match find(into, k) {
            Some(_) => Err(Fault::KeyCollisionValueAlreadyExists(k)),
            None => Ok(into.push((k, Node::Value(x)))),
        },
        Node::Level(l) => match find(into, k) {
            None => match merge_entries(Seq::empty(), l) {
                Ok(m) => Ok(into.push((k, Node::Level(m)))),
                Err(f) => Err(f),
            },
            Some(i) => match into[i].1 {
                Node::Value(_) => Err(Fault::KeyCollisionValueWhenShouldBeLevel),
                Node::Level(sub) => match merge_entries(sub, l) {
                    Ok(m) => Ok(into.update(i, (k, Node::Level(m)))),
                    Err(f) => Err(f),
                },
            },
        },
    }
}

/// Merges the entries of `from`, in order, into `into`.
pub open spec fn merge_entries(into: Entries, from: Entries) -> Result<Entries, Fault>
    decreases from,
{
    if from.len() == 0 {
        Ok(into)
    } else {
        match merge_one(into, from[0].0, from[0].1) {
            Ok(next) => merge_entries(next, from.drop_first()),
            Err(f) => Err(f),
        }
    }
}

/// The node that a dotted path leads to: `a.b` with `v` is `{ a { b v } }`
/// once the first part is taken as the key.
pub open spec fn nest(parts: Seq<Seq<char>>, v: Node) -> Node
    decreases parts.len(),
{
    if parts.len() == 0 {
        v
    } else {
        Node::Level(seq![(parts[0], nest(parts.drop_first(), v))])
    }
}

/// The parts of a key separated by `'.'`.
pub open spec fn split_dots(k: Seq<char>) -> Seq<Seq<char>>
    decreases k.len(),
{
    if k.len() == 0 {
        seq![Seq::empty()]
    } else {
        let r = split_dots(k.drop_last());
        if k.last() == '.' {
            r.push(Seq::empty())
        } else {
            r.update(r.len() - 1, r.last().push(k.last()))
        }
    }
}

/// Merges `key value` into a level: the key's first part names the entry and
/// its further parts nest the value.
pub open spec fn merge_pair(into: Entries, key: Seq<char>, v: Node) -> Result<Entries, Fault> {
    let parts = split_dots(key);
    merge_one(into, parts[0], nest(parts.drop_first(), v))
}

/// Whether no key occurs twice in any level of a tree.
pub open spec fn tree_unique(n: Node) -> bool
    decreases n,
{
    match n {
        Node::Value(_) => true,
        Node::Level(e) => keys_unique(e) && children_unique(e),
    }
}

/// Whether every child of a level is a tree with unique keys.
pub open spec fn children_unique(e: Entries) -> bool
    decreases e,
{
    if e.len() == 0 {
        true
    } else {
        tree_unique(e[0].1) && children_unique(e.drop_first())
    }
}

pub proof fn lemma_children_unique(e: Entries)
    ensures
        children_unique(e) <==> forall|i: int| 0 <= i < e.len() ==> tree_unique(#[trigger] e[i].1),
    decreases e.len(),
{
    if e.len() > 0 {
        lemma_children_unique(e.drop_first());
        if forall|i: int| 0 <= i < e.len() ==> tree_unique(#[trigger] e[i].1) {
            assert forall|i: int| 0 <= i < e.drop_first().len() implies tree_unique(#[trigger] e.drop_first()[i].1) by {
                assert(e.drop_first()[i] == e[i + 1]);
            }
        }
        if children_unique(e) {
            assert forall|i: int| 0 <= i < e.len() implies tree_unique(#[trigger] e[i].1) by {
                if i > 0 {
                    assert(e[i] == e.drop_first()[i - 1]);
                }
            }
        }
    }
}

/// Whether a level's keys are unique and so are its children's, at every depth.
pub open spec fn level_unique(e: Entries) -> bool {
    keys_unique(e) && forall|i: int| 0 <= i < e.len() ==> tree_unique(#[trigger] e[i].1)
}

proof fn lemma_level_unique(e: Entries)
    ensures
        level_unique(e) <==> tree_unique(Node::Level(e)),
{
    lemma_children_unique(e);
}

proof fn lemma_merge_one_unique(into: Entries, k: Seq<char>, v: Node)
    requires
        level_unique(into),
        tree_unique(v),
    ensures
        merge_one(into, k, v) matches Ok(r) ==> level_unique(r),
    decreases v,
{
    lemma_find_from(into, k, 0);
    match v {
        Node::Value(x) => {
            if find(into, k) is None {
                let r = into.push((k, Node::Value(x)));
                assert(level_unique(r)) by {
                    assert forall|i: int, j: int| 0 <= i < j < r.len() implies r[i].0 != r[j].0 by {
                        if j == into.len() {
                            assert(r[i] == into[i]);
                        } else {
                            assert(r[i] == into[i] && r[j] == into[j]);
                        }
                    }
                    assert forall|i: int| 0 <= i < r.len() implies tree_unique(#[trigger] r[i].1) by {
                        if i < into.len() {
                            assert(r[i] == into[i]);
                        }
                    }
                }
            }
        },
        Node::Level(l) => {
            lemma_level_unique(l);
            match find(into, k) {
                None => {
                    lemma_merge_entries_unique(Seq::empty(), l);
                    if let Ok(m) = merge_entries(Seq::empty(), l) {
                        lemma_level_unique(m);
                        let r = into.push((k, Node::Level(m)));
                        assert(level_unique(r)) by {
                            assert forall|i: int, j: int| 0 <= i < j < r.len() implies r[i].0 != r[j].0 by {
                                if j == into.len() {
                                    assert(r[i] == into[i]);
                                } else {
                                    assert(r[i] == into[i] && r[j] == into[j]);
                                }
                            }
                            assert forall|i: int| 0 <= i < r.len() implies tree_unique(#[trigger] r[i].1) by {
                                if i < into.len() {
                                    assert(r[i] == into[i]);
                                }
                            }
                        }
                    }
                },
                Some(i) => {
                    if let Node::Level(sub) = into[i].1 {
                        assert(tree_unique(into[i].1));
                        lemma_level_unique(sub);
                        lemma_merge_entries_unique(sub, l);
                        if let Ok(m) = merge_entries(sub, l) {
                            lemma_level_unique(m);
                            let r = into.update(i, (k, Node::Level(m)));
                            assert(level_unique(r)) by {
                                assert forall|a: int, b: int| 0 <= a < b < r.len() implies r[a].0 != r[b].0 by {
                                    assert(r[a].0 == into[a].0 && r[b].0 == into[b].0);
                                }
                                assert forall|a: int| 0 <= a < r.len() implies tree_unique(#[trigger] r[a].1) by {
                                    if a != i {
                                        assert(r[a] == into[a]);
                                    }
                                }
                            }
                        }
                    }
                },
            }
        },
    }
}

proof fn lemma_merge_entries_unique(into: Entries, from: Entries)
    requires
        level_unique(into),
        forall|i: int| 0 <= i < from.len() ==> tree_unique(#[trigger] from[i].1),
    ensures
        merge_entries(into, from) matches Ok(r) ==> level_unique(r),
    decreases from,
{
    if from.len() > 0 {
        assert(tree_unique(from[0].1));
        lemma_merge_one_unique(into, from[0].0, from[0].1);
        if let Ok(next) = merge_one(into, from[0].0, from[0].1) {
            assert forall|i: int| 0 <= i < from.drop_first().len() implies tree_unique(#[trigger] from.drop_first()[i].1) by {
                assert(from.drop_first()[i] == from[i + 1]);
            }
            lemma_merge_entries_unique(next, from.drop_first());
        }
    }
}

proof fn lemma_nest_unique(parts: Seq<Seq<char>>, v: Node)
    requires
        tree_unique(v),
    ensures
        tree_unique(nest(parts, v)),
    decreases parts.len(),
{
    if parts.len() > 0 {
        lemma_nest_unique(parts.drop_first(), v);
        let e = seq![(parts[0], nest(parts.drop_first(), v))];
        lemma_children_unique(e);
    }
}

/// Merging `key value` keeps every level of a tree free of repeated keys.
pub proof fn lemma_merge_pair_unique(into: Entries, key: Seq<char>, v: Node)
    requires
        level_unique(into),
        tree_unique(v),
    ensures
        merge_pair(into, key, v) matches Ok(r) ==> level_unique(r),
{
    let parts = split_dots(key);
    lemma_nest_unique(parts.drop_first(), v);
    lemma_merge_one_unique(into, parts[0], nest(parts.drop_first(), v));
}

//
// The grammar over a character sequence
//

/// Index of the first `'\n'` at or after `i`, else the length.
pub open spec fn line_end(s: Seq<char>, i: int) -> int
    decreases s.len() - i,
{
    if 0 <= i < s.len() && s[i] != '\n' {
        line_end(s, i + 1)
    } else {
        i
    }
}

/// Reads the rest of a line: its trimmed text when that is not empty, and the
/// position after the line.
pub open spec fn line_at(s: Seq<char>, p: int) -> (Option<Seq<char>>, int) {
    let e = line_end(s, p);
    let t = trimmed(s, p, e);
    (
        if t.len() > 0 {
            Some(t)
        } else {
            None
        },
        if e < s.len() {
            e + 1
        } else {
            e
        },
    )
}

/// Skips whitespace and reads the next character.
pub open spec fn filled_at(s: Seq<char>, p: int) -> (Option<char>, int) {
    let q = skip_space(s, p, s.len() as int);
    if q < s.len() {
        (Some(s[q]), q + 1)
    } else {
        (None, q)
    }
}

/// Reads up to the next whitespace, which is consumed.
pub open spec fn word_at(s: Seq<char>, p: int) -> (Seq<char>, int) {
    let e = word_end(s, p, s.len() as int);
    (
        s.subrange(p, e),
        if e < s.len() {
            e + 1
        } else {
            e
        },
    )
}

/// The character that an escape sequence starting at `p` (after the
/// backslash) stands for, and the position after it.
pub open spec fn escape_at(s: Seq<char>, p: int) -> Result<(char, int), Fault> {
    if p >= s.len() {
        Err(Fault::UnexpectedStringEnd)
    } else {
        let c = s[p];
        if c == '"' || c == '\\' || c == '\'' {
            Ok((c, p + 1))
        } else if c == 'n' {
            Ok(('\n', p + 1))
        } else if c == 'r' {
            Ok(('\r', p + 1))
        } else if c == 't' {
            Ok(('\t', p + 1))
        } else if c == '0' {
            Ok(('\0', p + 1))
        } else if c == 'b' {
            Ok(('\x08', p + 1))
        } else if c == 'f' {
            Ok(('\x0c', p + 1))
        } else if c == 'u' || c == 'x' {
            if p + 5 > s.len() {
                Err(Fault::UnexpectedStringEnd)
            } else {
                match hex4_value(s[p + 1], s[p + 2], s[p + 3], s[p + 4]) {
                    None => Err(Fault::UnexpectedCharEscapeUnicode),
                    Some(v) => if 0xD800 <= v <= 0xDFFF {
                        Err(Fault::UnexpectedCharEscapeUnicode)
                    } else {
                        Ok((char_with_code(v), p + 5))
                    },
                }
            }
        } else {
            Err(Fault::UnexpectedCharEscapeEnd)
        }
    }
}

/// The character whose code point is `v`.
pub open spec fn char_with_code(v: int) -> char {
    choose|c: char| #[trigger] code_of(c) == v
}

/// The code point of a character.
pub open spec fn code_of(c: char) -> int {
    c as int
}

/// Prepends `a` to the text of a successful string read.
pub open spec fn prepend(a: Seq<char>, r: Result<(Seq<char>, int), Fault>) -> Result<
    (Seq<char>, int),
    Fault,
> {
    match r {
        Ok((x, q)) => Ok((a + x, q)),
        Err(f) => Err(f),
    }
}

/// Reads a quoted string from `p` (after the opening quote) up to the closing
/// `close`, decoding escapes.
pub open spec fn string_at(s: Seq<char>, p: int, close: char) -> Result<(Seq<char>, int), Fault>
    decreases s.len() - p,
{
    if p < 0 || p >= s.len() {
        Err(Fault::UnexpectedStringEnd)
    } else if s[p] == close {
        Ok((Seq::empty(), p + 1))
    } else if s[p] == '\\' {
        match escape_at(s, p + 1) {
            Err(f) => Err(f),
            Ok((c, q)) => if p < q {
                prepend(seq![c], string_at(s, q, close))
            } else {
                Err(Fault::UnexpectedStringEnd)
            },
        }
    } else {
        prepend(seq![s[p]], string_at(s, p + 1, close))
    }
}

/// Reads a key whose first character `c` was read already.
pub open spec fn key_at(s: Seq<char>, p: int, c: char) -> Result<(Seq<char>, int), Fault> {
    if c == '"' || c == '\'' {
        string_at(s, p, c)
    } else {
        let (w, q) = word_at(s, p);
        Ok((seq![c] + w, q))
    }
}

/// Checks that nothing but whitespace follows on the line; `f` is the error
/// otherwise.
pub open spec fn line_done(s: Seq<char>, n: Node, q: int, nl: bool, f: Fault) -> Result<
    (Node, int),
    Fault,
> {
    if nl {
        let (rest, q2) = line_at(s, q);
        if rest is Some {
            Err(f)
        } else {
            Ok((n, q2))
        }
    } else {
        Ok((n, q))
    }
}

/// Reads a value whose first character `first` was read already; `nl` says
/// whether the value ends its line.
pub open spec fn value_at(s: Seq<char>, p: int, nl: bool, first: char) -> Result<(Node, int), Fault>
    decreases s.len() - p, 2int,
{
    if first == '{' {
        match level_at(s, p) {
            Err(f) => Err(f),
            Ok((l, q)) => line_done(s, Node::Level(l), q, nl, Fault::UnexpectedAfterLevelEnd),
        }
    } else if first == '[' {
        match list_at(s, p, Seq::empty()) {
            Err(f) => Err(f),
            Ok((l, q)) => line_done(s, Node::Level(l), q, nl, Fault::UnexpectedAfterListEnd),
        }
    } else if first == '"' || first == '\'' {
        match string_at(s, p, first) {
            Err(f) => Err(f),
            Ok((v, q)) => line_done(s, Node::Value(v), q, nl, Fault::UnexpectedAfterListEnd),
        }
    } else if nl {
        let (line, q) = line_at(s, p);
        Ok(
            (
                Node::Value(
                    seq![first] + match line {
                        Some(t) => t,
                        None => Seq::empty(),
                    },
                ),
                q,
            ),
        )
    } else {
        let (w, q) = word_at(s, p);
        Ok((Node::Value(seq![first] + w), q))
    }
}

/// Index of the first `'}'` or `'\n'` at or after `i`, else the length.
pub open spec fn inline_end(s: Seq<char>, i: int) -> int
    decreases s.len() - i,
{
    if 0 <= i < s.len() && s[i] != '}' && s[i] != '\n' {
        inline_end(s, i + 1)
    } else {
        i
    }
}

/// Reads a level from `p` (after its `'{'`): `{ }` on one line, or a body
/// that starts on the next line and ends with `'}'`.
pub open spec fn level_at(s: Seq<char>, p: int) -> Result<(Entries, int), Fault>
    decreases s.len() - p, 1int,
{
    let e = inline_end(s, p);
    if e < 0 || e >= s.len() {
        Err(Fault::UnexpectedLevelEnd)
    } else if s[e] == '}' {
        if trimmed(s, p, e).len() == 0 {
            Ok((Seq::empty(), e + 1))
        } else {
            Err(Fault::UnexpectedNonEmptyInlineLevel)
        }
    } else if p <= e {
        body_at(s, e + 1, true, Seq::empty())
    } else {
        Err(Fault::UnexpectedLevelEnd)
    }
}

/// Reads `key value` lines into `acc` up to a `'}'` (when `close`) or the end
/// of the text (when not).
pub open spec fn body_at(s: Seq<char>, p: int, close: bool, acc: Entries) -> Result<
    (Entries, int),
    Fault,
>
    decreases s.len() - p, 1int,
{
    let (c, q) = filled_at(s, p);
    match c {
        None => if close {
            Err(Fault::UnexpectedLevelEnd)
        } else {
            Ok((acc, q))
        },
        Some(c) => if c == '}' {
            if close {
                Ok((acc, q))
            } else {
                Err(Fault::UnexpectedLevelEnd)
            }
        } else if c == ']' {
            Err(Fault::UnexpectedListEnd)
        } else {
            match key_at(s, q, c) {
                Err(f) => Err(f),
                Ok((key, q1)) => {
                    let (c2, q2) = filled_at(s, q1);
                    match c2 {
                        None => Err(Fault::EmptyWhenExpectedValue),
                        Some(c2) => if p < q2 <= s.len() {
                            match value_at(s, q2, true, c2) {
                                Err(f) => Err(f),
                                Ok((v, q3)) => match merge_pair(acc, key, v) {
                                    Err(f) => Err(f),
                                    Ok(next) => if q2 <= q3 <= s.len() {
                                        body_at(s, q3, close, next)
                                    } else {
                                        Err(Fault::UnexpectedLevelEnd)
                                    },
                                },
                            }
                        } else {
                            Err(Fault::UnexpectedLevelEnd)
                        },
                    }
                },
            }
        }
    }
}

/// The decimal digits of `n`.
pub open spec fn decimal(n: nat) -> Seq<char>
    decreases n,
{
    if n < 10 {
        seq![digit_char(n)]
    } else {
        decimal(n / 10).push(digit_char(n % 10))
    }
}

pub open spec fn digit_char(d: nat) -> char {
    if d == 0 {
        '0'
    } else if d == 1 {
        '1'
    } else if d == 2 {
        '2'
    } else if d == 3 {
        '3'
    } else if d == 4 {
        '4'
    } else if d == 5 {
        '5'
    } else if d == 6 {
        '6'
    } else if d == 7 {
        '7'
    } else if d == 8 {
        '8'
    } else {
        '9'
    }
}

/// Reads list elements into `acc` up to the closing `']'`; each element gets
/// its index, in decimal, as its key.
pub open spec fn list_at(s: Seq<char>, p: int, acc: Entries) -> Result<(Entries, int), Fault>
    decreases s.len() - p, 1int,
{
    let (c, q) = filled_at(s, p);
    match c {
        None => Err(Fault::UnexpectedListEnd),
        Some(c) => if c == ']' {
            Ok((acc, q))
        } else if c == '}' {
            Err(Fault::UnexpectedLevelEnd)
        } else if p < q <= s.len() {
            match value_at(s, q, false, c) {
                Err(f) => Err(f),
                Ok((v, q2)) => if q <= q2 <= s.len() {
                    list_at(s, q2, acc.push((decimal(acc.len()), v)))
                } else {
                    Err(Fault::UnexpectedListEnd)
                },
            }
        } else {
            Err(Fault::UnexpectedListEnd)
        }
    }
}

proof fn lemma_decimal_shape(n: nat)
    ensures
        decimal(n).len() >= 1,
        decimal(n).len() == 1 <==> n < 10,
        decimal(n).last() == digit_char(n % 10),
        n >= 10 ==> decimal(n).drop_last() == decimal(n / 10),
    decreases n,
{
    if n >= 10 {
        lemma_decimal_shape(n / 10);
    }
}

proof fn lemma_decimal_injective(n: nat, m: nat)
    requires
        decimal(n) == decimal(m),
    ensures
        n == m,
    decreases n,
{
    lemma_decimal_shape(n);
    lemma_decimal_shape(m);
    assert(digit_char(n % 10) == digit_char(m % 10));
    assert(n % 10 == m % 10);
    if n >= 10 {
        lemma_decimal_injective(n / 10, m / 10);
    }
}

/// Whether the keys of a list's entries are their indices in decimal.
pub open spec fn list_keys(e: Entries) -> bool {
    forall|i: int| 0 <= i < e.len() ==> #[trigger] e[i].0 == decimal(i as nat)
}

proof fn lemma_value_unique(s: Seq<char>, p: int, nl: bool, first: char)
    ensures
        value_at(s, p, nl, first) matches Ok((n, _)) ==> tree_unique(n),
    decreases s.len() - p, 2int,
{
    if first == '{' {
        lemma_level_at_unique(s, p);
        if let Ok((l, q)) = level_at(s, p) {
            lemma_level_unique(l);
        }
    } else if first == '[' {
        lemma_list_unique(s, p, Seq::empty());
        if let Ok((l, q)) = list_at(s, p, Seq::empty()) {
            lemma_level_unique(l);
        }
    }
}

proof fn lemma_level_at_unique(s: Seq<char>, p: int)
    ensures
        level_at(s, p) matches Ok((e, _)) ==> level_unique(e),
    decreases s.len() - p, 1int,
{
    let e = inline_end(s, p);
    if 0 <= e < s.len() && s[e] != '}' && p <= e {
        lemma_body_unique(s, e + 1, true, Seq::empty());
    }
}

proof fn lemma_body_unique(s: Seq<char>, p: int, close: bool, acc: Entries)
    requires
        level_unique(acc),
    ensures
        body_at(s, p, close, acc) matches Ok((e, _)) ==> level_unique(e),
    decreases s.len() - p, 1int,
{
    let (c, q) = filled_at(s, p);
    if let Some(c) = c {
        if c != '}' && c != ']' {
            if let Ok((key, q1)) = key_at(s, q, c) {
                let (c2, q2) = filled_at(s, q1);
                if let Some(c2) = c2 {
                    if p < q2 <= s.len() {
                        lemma_value_unique(s, q2, true, c2);
                        if let Ok((v, q3)) = value_at(s, q2, true, c2) {
                            lemma_merge_pair_unique(acc, key, v);
                            if let Ok(next) = merge_pair(acc, key, v) {
                                if q2 <= q3 <= s.len() {
                                    lemma_body_unique(s, q3, close, next);
                                }
                            }
                        }
                    }
                }
            }
        }
    }
}

proof fn lemma_list_unique(s: Seq<char>, p: int, acc: Entries)
    requires
        level_unique(acc),
        list_keys(acc),
    ensures
        list_at(s, p, acc) matches Ok((e, _)) ==> level_unique(e),
    decreases s.len() - p, 1int,
{
    let (c, q) = filled_at(s, p);
    if let Some(c) = c {
        if c != ']' && c != '}' && p < q <= s.len() {
            lemma_value_unique(s, q, false, c);
            if let Ok((v, q2)) = value_at(s, q, false, c) {
                if q <= q2 <= s.len() {
                    let next = acc.push((decimal(acc.len()), v));
                    assert(level_unique(next) && list_keys(next)) by {
                        assert forall|i: int, j: int| 0 <= i < j < next.len() implies next[i].0 != next[j].0 by {
                            if j == acc.len() {
                                assert(next[i].0 == decimal(i as nat));
                                if decimal(i as nat) == decimal(acc.len()) {
                                    lemma_decimal_injective(i as nat, acc.len());
                                }
                            } else {
                                assert(next[i] == acc[i] && next[j] == acc[j]);
                            }
                        }
                        assert forall|i: int| 0 <= i < next.len() implies tree_unique(#[trigger] next[i].1) by {
                            if i < acc.len() {
                                assert(next[i] == acc[i]);
                            }
                        }
                        assert forall|i: int| 0 <= i < next.len() implies #[trigger] next[i].0 == decimal(i as nat) by {
                            if i < acc.len() {
                                assert(next[i] == acc[i]);
                            }
                        }
                    }
                    lemma_list_unique(s, q2, next);
                }
            }
        }
    }
}

/// No key occurs twice in any level of a parsed text.
pub proof fn lemma_parsed_tree_unique(s: Seq<char>)
    ensures
        parse_text(s) matches Ok(n) ==> tree_unique(n),
{
    lemma_body_unique(s, 0, false, Seq::empty());
    if let Ok((e, _)) = body_at(s, 0, false, Seq::empty()) {
        lemma_level_unique(e);
    }
}

/// What a whole text parses to: the root level, read to the end of the text.
pub open spec fn parse_text(s: Seq<char>) -> Result<Node, Fault> {
    match body_at(s, 0, false, Seq::empty()) {
        Ok((e, _)) => Ok(Node::Level(e)),
        Err(f) => Err(f),
    }
}

//
// Executable reading
//

/// Relies on `char::from_u32`: the character with the given code point, if
/// there is one.
#[verifier::external_body]
fn char_from_u32(u: u32) -> (r: Option<char>)
    ensures
        r matches Some(c) ==> c as int == u as int,
        r is None ==> (0xD800 <= u <= 0xDFFF || u > 0x10FFFF),
{
    char::from_u32(u)
}

fn line_end_exec(s: &Vec<char>, i: usize) -> (r: usize)
    requires
        i <= s@.len(),
    ensures
        r == line_end(s@, i as int),
        i <= r <= s@.len(),
{
    let mut j = i;
    while j < s.len() && s[j] != '\n'
        invariant
            i <= j <= s@.len(),
            line_end(s@, j as int) == line_end(s@, i as int),
        decreases s@.len() - j,
    {
        j = j + 1;
    }
    j
}

fn read_line(s: &Vec<char>, p: usize) -> (r: (Option<String>, usize))
    requires
        p <= s@.len(),
    ensures
        (
            match r.0 {
                Some(t) => Some(t@),
                None => None,
            },
            r.1 as int,
        ) == line_at(s@, p as int),
        p <= r.1 <= s@.len(),
{
    let e = line_end_exec(s, p);
    let (a, b) = trim_range(s, p, e);
    let q = if e < s.len() {
        e + 1
    } else {
        e
    };
    if a < b {
        (Some(string_of(s, a, b)), q)
    } else {
        (None, q)
    }
}

fn read_filled(s: &Vec<char>, p: usize) -> (r: (Option<char>, usize))
    requires
        p <= s@.len(),
    ensures
        (r.0, r.1 as int) == filled_at(s@, p as int),
        p <= r.1 <= s@.len(),
        r.0 is Some ==> p < r.1,
{
    let q = skip_spaces(s, p, s.len());
    if q < s.len() {
        (Some(s[q]), q + 1)
    } else {
        (None, q)
    }
}

fn read_until_whitespace(s: &Vec<char>, p: usize) -> (r: (String, usize))
    requires
        p <= s@.len(),
    ensures
        (r.0@, r.1 as int) == word_at(s@, p as int),
        p <= r.1 <= s@.len(),
{
    let e = find_word_end(s, p, s.len());
    let w = string_of(s, p, e);
    if e < s.len() {
        (w, e + 1)
    } else {
        (w, e)
    }
}

proof fn lemma_prepend(a: Seq<char>, b: Seq<char>, r: Result<(Seq<char>, int), Fault>)
    ensures
        prepend(a, prepend(b, r)) == prepend(a + b, r),
{
    match r {
        Ok((x, q)) => {
            assert(a + (b + x) =~= (a + b) + x);
        },
        Err(_) => {},
    }
}

fn read_escape(s: &Vec<char>, p: usize) -> (r: Result<(char, usize), LSDParseError>)
    requires
        p <= s@.len(),
    ensures
        match r {
            Ok((c, q)) => escape_at(s@, p as int) == Ok::<(char, int), Fault>((c, q as int)) && p
                < q <= s@.len(),
            Err(e) => escape_at(s@, p as int) == Err::<(char, int), Fault>(e@),
        },
{
    if p >= s.len() {
        return Err(LSDParseError::UnexpectedStringEnd);
    }
    let c = s[p];
    if c == '"' || c == '\\' || c == '\'' {
        Ok((c, p + 1))
    } else if c == 'n' {
        Ok(('\n', p + 1))
    } else if c == 'r' {
        Ok(('\r', p + 1))
    } else if c == 't' {
        Ok(('\t', p + 1))
    } else if c == '0' {
        Ok(('\0', p + 1))
    } else if c == 'b' {
        Ok(('\x08', p + 1))
    } else if c == 'f' {
        Ok(('\x0c', p + 1))
    } else if c == 'u' || c == 'x' {
        if s.len() - p < 5 {
            return Err(LSDParseError::UnexpectedStringEnd);
        }
        match u16_from_4_hex_chars(s[p + 1], s[p + 2], s[p + 3], s[p + 4]) {
            Err(()) => Err(LSDParseError::UnexpectedCharEscapeUnicode),
            Ok(v) => {
                if 0xD800 <= v && v <= 0xDFFF {
                    Err(LSDParseError::UnexpectedCharEscapeUnicode)
                } else {
                    match char_from_u32(v as u32) {
                        Some(ch) => {
                            assert(code_of(ch) == v as int);
                            assert(code_of(char_with_code(v as int)) == v as int);
                            assert(ch == char_with_code(v as int));
                            Ok((ch, p + 5))
                        },
                        None => Err(LSDParseError::UnexpectedCharEscapeUnicode),
                    }
                }
            },
        }
    } else {
        Err(LSDParseError::UnexpectedCharEscapeEnd)
    }
}

fn parse_string(s: &Vec<char>, p: usize, close: char) -> (r: Result<(String, usize), LSDParseError>)
    requires
        p <= s@.len(),
    ensures
        match r {
            Ok((v, q)) => string_at(s@, p as int, close) == Ok::<(Seq<char>, int), Fault>(
                (v@, q as int),
            ) && p < q <= s@.len(),
            Err(e) => string_at(s@, p as int, close) == Err::<(Seq<char>, int), Fault>(e@),
        },
{
    let mut out = String::new();
    let mut i = p;
    loop
        invariant
            p <= i <= s@.len(),
            string_at(s@, p as int, close) == prepend(out@, string_at(s@, i as int, close)),
        decreases s@.len() - i,
    {
        if i >= s.len() {
            return Err(LSDParseError::UnexpectedStringEnd);
        }
        let c = s[i];
        if c == close {
            assert(out@ + Seq::<char>::empty() =~= out@);
            return Ok((out, i + 1));
        } else if c == '\\' {
            match read_escape(s, i + 1) {
                Err(e) => return Err(e),
                Ok((x, q)) => {
                    proof {
                        lemma_prepend(out@, seq![x], string_at(s@, q as int, close));
                        assert(out@.push(x) =~= out@ + seq![x]);
                    }
                    push_char(&mut out, x);
                    i = q;
                },
            }
        } else {
            proof {
                lemma_prepend(out@, seq![c], string_at(s@, i + 1, close));
                assert(out@.push(c) =~= out@ + seq![c]);
            }
            push_char(&mut out, c);
            i = i + 1;
        }
    }
}

fn read_key(s: &Vec<char>, p: usize, c: char) -> (r: Result<(String, usize), LSDParseError>)
    requires
        p <= s@.len(),
    ensures
        match r {
            Ok((k, q)) => key_at(s@, p as int, c) == Ok::<(Seq<char>, int), Fault>((k@, q as int))
                && p <= q <= s@.len(),
            Err(e) => key_at(s@, p as int, c) == Err::<(Seq<char>, int), Fault>(e@),
        },
{
    if c == '"' || c == '\'' {
        parse_string(s, p, c)
    } else {
        let (w, q) = read_until_whitespace(s, p);
        let mut k = String::new();
        push_char(&mut k, c);
        k.append(w.as_str());
        Ok((k, q))
    }
}

/// The mathematical form of a result that carries a node.
pub open spec fn node_result(r: Result<(LSD, usize), LSDParseError>) -> Result<(Node, int), Fault> {
    match r {
        Ok((l, q)) => Ok((l@, q as int)),
        Err(e) => Err(e@),
    }
}

/// The mathematical form of a result that carries entries.
pub open spec fn entries_result(r: Result<(Vec<(String, LSD)>, usize), LSDParseError>) -> Result<
    (Entries, int),
    Fault,
> {
    match r {
        Ok((e, q)) => Ok((entries_of(e@), q as int)),
        Err(f) => Err(f@),
    }
}

fn check_line_done(s: &Vec<char>, n: LSD, q: usize, nl: bool, f: LSDParseError) -> (r: Result<
    (LSD, usize),
    LSDParseError,
>)
    requires
        q <= s@.len(),
    ensures
        node_result(r) == line_done(s@, n@, q as int, nl, f@),
        r matches Ok((_, q2)) ==> q <= q2 <= s@.len(),
{
    if nl {
        let (rest, q2) = read_line(s, q);
        if rest.is_some() {
            Err(f)
        } else {
            Ok((n, q2))
        }
    } else {
        Ok((n, q))
    }
}

fn parse_value(s: &Vec<char>, p: usize, nl: bool, first: char) -> (r: Result<
    (LSD, usize),
    LSDParseError,
>)
    requires
        p <= s@.len(),
    ensures
        node_result(r) == value_at(s@, p as int, nl, first),
        r matches Ok((_, q)) ==> p <= q <= s@.len(),
    decreases s@.len() - p, 2int,
{
    if first == '{' {
        match parse_level(s, p) {
            Err(f) => Err(f),
            Ok((l, q)) => {
                let lv = LSD::Level(Level { entries: l });
                check_line_done(s, lv, q, nl, LSDParseError::UnexpectedAfterLevelEnd)
            },
        }
    } else if first == '[' {
        match parse_list(s, p, Vec::new()) {
            Err(f) => Err(f),
            Ok((l, q)) => {
                let lv = LSD::Level(Level { entries: l });
                check_line_done(s, lv, q, nl, LSDParseError::UnexpectedAfterListEnd)
            },
        }
    } else if first == '"' || first == '\'' {
        match parse_string(s, p, first) {
            Err(f) => Err(f),
            Ok((v, q)) => check_line_done(
                s,
                LSD::Value(v),
                q,
                nl,
                LSDParseError::UnexpectedAfterListEnd,
            ),
        }
    } else if nl {
        let (line, q) = read_line(s, p);
        let mut v = String::new();
        push_char(&mut v, first);
        match line {
            Some(t) => {
                v.append(t.as_str());
            },
            None => {
                assert(v@ + Seq::<char>::empty() =~= v@);
            },
        }
        Ok((LSD::Value(v), q))
    } else {
        let (w, q) = read_until_whitespace(s, p);
        let mut v = String::new();
        push_char(&mut v, first);
        v.append(w.as_str());
        Ok((LSD::Value(v), q))
    }
}

fn inline_end_exec(s: &Vec<char>, i: usize) -> (r: usize)
    requires
        i <= s@.len(),
    ensures
        r == inline_end(s@, i as int),
        i <= r <= s@.len(),
{
    let mut j = i;
    while j < s.len() && s[j] != '}' && s[j] != '\n'
        invariant
            i <= j <= s@.len(),
            inline_end(s@, j as int) == inline_end(s@, i as int),
        decreases s@.len() - j,
    {
        j = j + 1;
    }
    j
}

fn parse_level(s: &Vec<char>, p: usize) -> (r: Result<(Vec<(String, LSD)>, usize), LSDParseError>)
    requires
        p <= s@.len(),
    ensures
        entries_result(r) == level_at(s@, p as int),
        r matches Ok((_, q)) ==> p <= q <= s@.len(),
    decreases s@.len() - p, 1int,
{
    let e = inline_end_exec(s, p);
    if e >= s.len() {
        Err(LSDParseError::UnexpectedLevelEnd)
    } else if s[e] == '}' {
        let (a, b) = trim_range(s, p, e);
        if a == b {
            Ok((Vec::new(), e + 1))
        } else {
            Err(LSDParseError::UnexpectedNonEmptyInlineLevel)
        }
    } else {
        parse_level_inner(s, e + 1, true, Vec::new())
    }
}

fn parse_list(s: &Vec<char>, p: usize, acc: Vec<(String, LSD)>) -> (r: Result<
    (Vec<(String, LSD)>, usize),
    LSDParseError,
>)
    requires
        p <= s@.len(),
    ensures
        entries_result(r) == list_at(s@, p as int, entries_of(acc@)),
        r matches Ok((_, q)) ==> p <= q <= s@.len(),
    decreases s@.len() - p, 1int,
{
    let (c, q) = read_filled(s, p);
    match c {
        None => Err(LSDParseError::UnexpectedListEnd),
        Some(c) => {
            if c == ']' {
                Ok((acc, q))
            } else if c == '}' {
                Err(LSDParseError::UnexpectedLevelEnd)
            } else {
                match parse_value(s, q, false, c) {
                    Err(f) => Err(f),
                    Ok((v, q2)) => {
                        let mut acc = acc;
                        let ghost old_acc = acc@;
                        let key = decimal_string(acc.len());
                        proof {
                            lemma_entries_of(old_acc);
                        }
                        acc.push((key, v));
                        proof {
                            lemma_entries_of(acc@);
                            assert(entries_of(acc@) =~= entries_of(old_acc).push(
                                (decimal(old_acc.len()), v@),
                            ));
                        }
                        parse_list(s, q2, acc)
                    },
                }
            }
        },
    }
}

/// The decimal digits of `n`.
pub fn decimal_string(n: usize) -> (r: String)
    ensures
        r@ == decimal(n as nat),
    decreases n,
{
    let d = n % 10;
    let c = if d == 0 {
        '0'
    } else if d == 1 {
        '1'
    } else if d == 2 {
        '2'
    } else if d == 3 {
        '3'
    } else if d == 4 {
        '4'
    } else if d == 5 {
        '5'
    } else if d == 6 {
        '6'
    } else if d == 7 {
        '7'
    } else if d == 8 {
        '8'
    } else {
        '9'
    };
    if n < 10 {
        let mut out = String::new();
        push_char(&mut out, c);
        assert(out@ =~= seq![c]);
        out
    } else {
        let mut out = decimal_string(n / 10);
        push_char(&mut out, c);
        out
    }
}

fn parse_level_inner(s: &Vec<char>, p: usize, close: bool, acc: Vec<(String, LSD)>) -> (r: Result<
    (Vec<(String, LSD)>, usize),
    LSDParseError,
>)
    requires
        p <= s@.len(),
    ensures
        entries_result(r) == body_at(s@, p as int, close, entries_of(acc@)),
        r matches Ok((_, q)) ==> p <= q <= s@.len(),
    decreases s@.len() - p, 1int,
{
    let (c, q) = read_filled(s, p);
    match c {
        None => {
            if close {
                Err(LSDParseError::UnexpectedLevelEnd)
            } else {
                Ok((acc, q))
            }
        },
        Some(c) => {
            if c == '}' {
                if close {
                    Ok((acc, q))
                } else {
                    Err(LSDParseError::UnexpectedLevelEnd)
                }
            } else if c == ']' {
                Err(LSDParseError::UnexpectedListEnd)
            } else {
                match read_key(s, q, c) {
                    Err(f) => Err(f),
                    Ok((key, q1)) => {
                        let (c2, q2) = read_filled(s, q1);
                        match c2 {
                            None => Err(LSDParseError::EmptyWhenExpectedValue),
                            Some(c2) => {
                                match parse_value(s, q2, true, c2) {
                                    Err(f) => Err(f),
                                    Ok((v, q3)) => {
                                        match merge_key(acc, &key, v) {
                                            Err(f) => Err(f),
                                            Ok(next) => parse_level_inner(s, q3, close, next),
                                        }
                                    },
                                }
                            },
                        }
                    },
                }
            }
        },
    }
}

//
// Executable merge
//

fn find_key(e: &Vec<(String, LSD)>, k: &String) -> (r: Option<usize>)
    ensures
        match r {
            Some(i) => find(entries_of(e@), k@) == Some(i as int),
            None => find(entries_of(e@), k@) is None,
        },
{
    proof {
        lemma_entries_of(e@);
    }
    let mut i: usize = 0;
    while i < e.len()
        invariant
            i <= e@.len(),
            entries_of(e@).len() == e@.len(),
            forall|j: int| 0 <= j < e@.len() ==> #[trigger] entries_of(e@)[j] == (
                e@[j].0@,
                node_of(e@[j].1),
            ),
            find_from(entries_of(e@), k@, 0) == find_from(entries_of(e@), k@, i as int),
        decreases e@.len() - i,
    {
        if e[i].0 == *k {
            return Some(i);
        }
        i = i + 1;
    }
    None
}

proof fn lemma_entries_size(e: Seq<(String, LSD)>, i: int)
    requires
        0 <= i < e.len(),
    ensures
        lsd_size(e[i].1) <= entries_size(e),
    decreases e.len(),
{
    if i > 0 {
        lemma_entries_size(e.drop_first(), i - 1);
    }
}

fn merge_one_exec(into: Vec<(String, LSD)>, k: String, v: LSD) -> (r: Result<
    Vec<(String, LSD)>,
    LSDParseError,
>)
    ensures
        match r {
            Ok(m) => merge_one(entries_of(into@), k@, v@) == Ok::<Entries, Fault>(entries_of(m@)),
            Err(f) => merge_one(entries_of(into@), k@, v@) == Err::<Entries, Fault>(f@),
        },
    decreases lsd_size(v), 0int,
{
    let mut into = into;
    let ghost old_into = into@;
    proof {
        lemma_entries_of(old_into);
    }
    match v {
        LSD::Value(x) => {
            match find_key(&into, &k) {
                Some(_) => Err(LSDParseError::KeyCollisionValueAlreadyExists(k)),
                None => {
                    into.push((k, LSD::Value(x)));
                    proof {
                        lemma_entries_of(into@);
                        assert(entries_of(into@) =~= entries_of(old_into).push(
                            (k@, Node::Value(x@)),
                        ));
                    }
                    Ok(into)
                },
            }
        },
        LSD::Level(l) => {
            match find_key(&into, &k) {
                None => {
                    match merge_entries_exec(Vec::new(), l.entries) {
                        Err(f) => Err(f),
                        Ok(m) => {
                            let ghost mv = m@;
                            into.push((k, LSD::Level(Level { entries: m })));
                            proof {
                                lemma_entries_of(into@);
                                assert(entries_of(into@) =~= entries_of(old_into).push(
                                    (k@, Node::Level(entries_of(mv))),
                                ));
                            }
                            Ok(into)
                        },
                    }
                },
                Some(i) => {
                    proof {
                        lemma_find_from(entries_of(old_into), k@, 0);
                    }
                    let (k0, existing) = into.remove(i);
                    let ghost removed = into@;
                    assert(k0@ == k@);
                    match existing {
                        LSD::Value(_) => Err(LSDParseError::KeyCollisionValueWhenShouldBeLevel),
                        LSD::Level(sub) => {
                            match merge_entries_exec(sub.entries, l.entries) {
                                Err(f) => Err(f),
                                Ok(m) => {
                                    let ghost mv = m@;
                                    into.insert(i, (k0, LSD::Level(Level { entries: m })));
                                    proof {
                                        assert(into@ =~= old_into.update(
                                            i as int,
                                            (k0, LSD::Level(Level { entries: m })),
                                        ));
                                        lemma_entries_of(into@);
                                        assert(entries_of(into@) =~= entries_of(old_into).update(
                                            i as int,
                                            (k@, Node::Level(entries_of(mv))),
                                        ));
                                    }
                                    Ok(into)
                                },
                            }
                        },
                    }
                },
            }
        },
    }
}

fn merge_entries_exec(into: Vec<(String, LSD)>, from: Vec<(String, LSD)>) -> (r: Result<
    Vec<(String, LSD)>,
    LSDParseError,
>)
    ensures
        match r {
            Ok(m) => merge_entries(entries_of(into@), entries_of(from@)) == Ok::<Entries, Fault>(
                entries_of(m@),
            ),
            Err(f) => merge_entries(entries_of(into@), entries_of(from@)) == Err::<Entries, Fault>(
                f@,
            ),
        },
    decreases entries_size(from@), 1int,
{
    if from.len() == 0 {
        return Ok(into);
    }
    let mut from = from;
    let ghost old_from = from@;
    proof {
        lemma_entries_of(old_from);
        lemma_entries_size(old_from, 0);
    }
    let (k, v) = from.remove(0);
    proof {
        assert(from@ =~= old_from.drop_first());
        lemma_entries_of(from@);
        assert(entries_of(from@) =~= entries_of(old_from).drop_first());
    }
    match merge_one_exec(into, k, v) {
        Err(f) => Err(f),
        Ok(next) => merge_entries_exec(next, from),
    }
}

/// Splits a key at its `'.'`s.
fn split_key(k: &String) -> (r: Vec<String>)
    ensures
        r@.len() == split_dots(k@).len(),
        r@.len() >= 1,
        forall|i: int| 0 <= i < r@.len() ==> #[trigger] r@[i]@ == split_dots(k@)[i],
{
    let c = chars_of(k.as_str());
    let mut done: Vec<String> = Vec::new();
    let mut cur = String::new();
    let mut i: usize = 0;
    while i < c.len()
        invariant
            i <= c@.len(),
            c@ == k@,
            done@.len() + 1 == split_dots(c@.subrange(0, i as int)).len(),
            forall|j: int| 0 <= j < done@.len() ==> #[trigger] done@[j]@ == split_dots(
                c@.subrange(0, i as int),
            )[j],
            cur@ == split_dots(c@.subrange(0, i as int)).last(),
        decreases c@.len() - i,
    {
        let ghost before = c@.subrange(0, i as int);
        assert(c@.subrange(0, i + 1).drop_last() == before);
        if c[i] == '.' {
            done.push(cur);
            cur = String::new();
        } else {
            push_char(&mut cur, c[i]);
        }
        i = i + 1;
    }
    assert(c@.subrange(0, c@.len() as int) == c@);
    done.push(cur);
    done
}

/// Merges `key value` into a level (see `merge_pair`).
fn merge_key(acc: Vec<(String, LSD)>, key: &String, v: LSD) -> (r: Result<
    Vec<(String, LSD)>,
    LSDParseError,
>)
    ensures
        match r {
            Ok(m) => merge_pair(entries_of(acc@), key@, v@) == Ok::<Entries, Fault>(
                entries_of(m@),
            ),
            Err(f) => merge_pair(entries_of(acc@), key@, v@) == Err::<Entries, Fault>(f@),
        },
{
    let parts = split_key(key);
    let ghost ps = split_dots(key@);
    let mut node = v;
    let mut i = parts.len();
    assert(ps.subrange(i as int, i as int) =~= Seq::<Seq<char>>::empty());
    while i > 1
        invariant
            1 <= i <= parts@.len(),
            parts@.len() == ps.len(),
            forall|j: int| 0 <= j < parts@.len() ==> #[trigger] parts@[j]@ == ps[j],
            node@ == nest(ps.subrange(i as int, ps.len() as int), v@),
        decreases i,
    {
        let part = parts[i - 1].clone();
        let ghost inner = node@;
        assert(ps.subrange(i - 1, ps.len() as int).drop_first() =~= ps.subrange(
            i as int,
            ps.len() as int,
        ));
        node = LSD::Level(Level { entries: vec![(part, node)] });
        assert(node@ == Node::Level(seq![(ps[i - 1], inner)])) by {
            let e = match node {
                LSD::Level(l) => l.entries@,
                LSD::Value(_) => Seq::empty(),
            };
            lemma_entries_of(e);
            assert(entries_of(e) =~= seq![(ps[i - 1], inner)]);
        }
        i = i - 1;
    }
    assert(ps.drop_first() =~= ps.subrange(1, ps.len() as int));
    merge_one_exec(acc, parts[0].clone(), node)
}

//
// Public interface
//

impl LSD {
    /// Parses a whole text into its root level.
    pub fn parse(text: &str) -> (r: Result<LSD, LSDParseError>)
        ensures
            match r {
                Ok(l) => parse_text(text@) == Ok::<Node, Fault>(l@) && tree_unique(l@),
                Err(e) => parse_text(text@) == Err::<Node, Fault>(e@),
            },
    {
        proof {
            lemma_parsed_tree_unique(text@);
        }
        let s = chars_of(text);
        match parse_level_inner(&s, 0, false, Vec::new()) {
            Ok((e, _)) => Ok(LSD::Level(Level { entries: e })),
            Err(f) => Err(f),
        }
    }
}


//
// Lookup
//

/// The node that a path of keys leads to from `n`.
pub open spec fn node_get(n: Node, path: Seq<Seq<char>>) -> Option<Node>
    decreases path.len(),
{
    if path.len() == 0 {
        Some(n)
    } else {
        match n {
            Node::Level(l) => match find(l, path[0]) {
                Some(i) => node_get(l[i].1, path.drop_first()),
                None => None,
            },
            Node::Value(_) => None,
        }
    }
}


/// Whether `k` reads as a `usize`: an optional `'+'`, then one or more
/// decimal digits whose value fits.
pub open spec fn is_index_text(k: Seq<char>) -> bool {
    let d = unsigned_digits(k);
    &&& d.len() > 0
    &&& all_digits(d)
    &&& digits_value(d) <= usize::MAX
}

/// `k` without a leading `'+'`.
pub open spec fn unsigned_digits(k: Seq<char>) -> Seq<char> {
    if k.len() > 0 && k[0] == '+' {
        k.drop_first()
    } else {
        k
    }
}

/// Whether every character of `d` is a decimal digit.
pub open spec fn all_digits(d: Seq<char>) -> bool {
    forall|i: int| 0 <= i < d.len() ==> '0' <= #[trigger] d[i] <= '9'
}

/// The number that a sequence of decimal digits spells.
pub open spec fn digits_value(d: Seq<char>) -> nat
    decreases d.len(),
{
    if d.len() == 0 {
        0
    } else {
        digits_value(d.drop_last()) * 10 + ((d.last() as int - '0' as int) as nat)
    }
}

/// Whether a level reads as a list: every key is a decimal index.
pub open spec fn level_is_list(e: Entries) -> bool {
    forall|i: int| 0 <= i < e.len() ==> is_index_text(#[trigger] e[i].0)
}

/// Whether `k` reads as a `usize`.
pub fn parses_as_index(k: &str) -> (r: bool)
    ensures
        r == is_index_text(k@),
{
    let c = chars_of(k);
    let start: usize = if c.len() > 0 && c[0] == '+' {
        1
    } else {
        0
    };
    let ghost d = c@.subrange(start as int, c@.len() as int);
    assert(d =~= (if k@.len() > 0 && k@[0] == '+' {
        k@.drop_first()
    } else {
        k@
    }));
    if start >= c.len() {
        return false;
    }
    let mut i = start;
    while i < c.len()
        invariant
            start <= i <= c@.len(),
            c@ == k@,
            d == unsigned_digits(k@),
            d == c@.subrange(start as int, c@.len() as int),
            forall|j: int| 0 <= j < i - start ==> '0' <= #[trigger] d[j] <= '9',
        decreases c@.len() - i,
    {
        if c[i] < '0' || c[i] > '9' {
            assert(d[i - start] == c@[i as int]);
            assert(!('0' <= d[i - start] <= '9'));
            assert(!all_digits(d));
            return false;
        }
        i = i + 1;
    }
    let mut value: usize = 0;
    let mut i = start;
    while i < c.len()
        invariant
            start <= i <= c@.len(),
            c@ == k@,
            d == unsigned_digits(k@),
            d == c@.subrange(start as int, c@.len() as int),
            forall|j: int| 0 <= j < d.len() ==> '0' <= #[trigger] d[j] <= '9',
            value as nat == digits_value(d.subrange(0, i - start)),
        decreases c@.len() - i,
    {
        assert(d.subrange(0, i - start + 1).drop_last() =~= d.subrange(0, i - start));
        assert(d[i - start] == c@[i as int]);
        let dv = (c[i] as u32 - '0' as u32) as usize;
        match value.checked_mul(10) {
            None => {
                proof {
                    lemma_digits_prefix(d, i - start + 1);
                }
                return false;
            },
            Some(m) => match m.checked_add(dv) {
                None => {
                    proof {
                        lemma_digits_prefix(d, i - start + 1);
                    }
                    return false;
                },
                Some(v) => {
                    value = v;
                },
            },
        }
        i = i + 1;
    }
    assert(d.subrange(0, d.len() as int) == d);
    true
}

proof fn lemma_digits_prefix(d: Seq<char>, j: int)
    requires
        0 <= j <= d.len(),
        forall|i: int| 0 <= i < d.len() ==> '0' <= #[trigger] d[i] <= '9',
    ensures
        digits_value(d.subrange(0, j)) <= digits_value(d),
    decreases d.len() - j,
{
    if j < d.len() {
        lemma_digits_prefix(d, j + 1);
        let x = digits_value(d.subrange(0, j));
        assert(d.subrange(0, j + 1).drop_last() =~= d.subrange(0, j));
        assert(x <= x * 10) by (nonlinear_arith);
    } else {
        assert(d.subrange(0, j) =~= d);
    }
}

impl Level {
    /// An empty level.
    pub fn new() -> (r: Level)
        ensures
            r@ == Seq::<(Seq<char>, Node)>::empty(),
    {
        Level { entries: Vec::new() }
    }

    /// Number of entries.
    pub fn len(&self) -> (r: usize)
        ensures
            r == self@.len(),
    {
        proof {
            lemma_entries_of(self.entries@);
        }
        self.entries.len()
    }

    /// The entry at `i`, in declaration order.
    pub fn entry(&self, i: usize) -> (r: (&String, &LSD))
        requires
            i < self@.len(),
        ensures
            (r.0@, r.1@) == self@[i as int],
    {
        proof {
            lemma_entries_of(self.entries@);
        }
        (&self.entries[i].0, &self.entries[i].1)
    }

    /// The node under `key`.
    pub fn get(&self, key: &str) -> (r: Option<&LSD>)
        ensures
            match find(self@, key@) {
                Some(i) => r matches Some(x) && x@ == self@[i].1,
                None => r is None,
            },
    {
        proof {
            lemma_entries_of(self.entries@);
        }
        let mut i: usize = 0;
        while i < self.entries.len()
            invariant
                i <= self.entries@.len(),
                entries_of(self.entries@).len() == self.entries@.len(),
                forall|j: int| 0 <= j < self.entries@.len() ==> #[trigger] entries_of(self.entries@)[j]
                    == (self.entries@[j].0@, node_of(self.entries@[j].1)),
                find_from(self@, key@, 0) == find_from(self@, key@, i as int),
            decreases self.entries@.len() - i,
        {
            if crate::text::str_eq(self.entries[i].0.as_str(), key) {
                return Some(&self.entries[i].1);
            }
            i = i + 1;
        }
        None
    }

    /// Whether every key reads as a decimal index, so that the level is a list.
    pub fn is_list(&self) -> (r: bool)
        ensures
            r == level_is_list(self@),
    {
        proof {
            lemma_entries_of(self.entries@);
        }
        let mut i: usize = 0;
        while i < self.entries.len()
            invariant
                i <= self.entries@.len(),
                entries_of(self.entries@).len() == self.entries@.len(),
                forall|j: int| 0 <= j < self.entries@.len() ==> #[trigger] entries_of(self.entries@)[j]
                    == (self.entries@[j].0@, node_of(self.entries@[j].1)),
                forall|j: int| 0 <= j < i ==> is_index_text(#[trigger] self@[j].0),
            decreases self.entries@.len() - i,
        {
            if !parses_as_index(self.entries[i].0.as_str()) {
                assert(self@[i as int].0 == self.entries@[i as int].0@);
                return false;
            }
            i = i + 1;
        }
        true
    }

    /// A copy of the level.
    pub fn copy(&self) -> (r: Level)
        ensures
            r@ == self@,
        decreases entries_size(self.entries@), 1int,
    {
        let mut out: Vec<(String, LSD)> = Vec::new();
        let mut i: usize = 0;
        proof {
            lemma_entries_of(self.entries@);
        }
        while i < self.entries.len()
            invariant
                i <= self.entries@.len(),
                out@.len() == i,
                forall|j: int| 0 <= j < i ==> #[trigger] out@[j].0@ == self.entries@[j].0@ && node_of(
                    out@[j].1,
                ) == node_of(self.entries@[j].1),
            decreases self.entries@.len() - i,
        {
            proof {
                lemma_entries_size(self.entries@, i as int);
            }
            let k = self.entries[i].0.clone();
            let v = self.entries[i].1.copy();
            out.push((k, v));
            i = i + 1;
        }
        proof {
            lemma_entries_of(out@);
            assert(entries_of(out@) =~= entries_of(self.entries@));
        }
        Level { entries: out }
    }

    /// The node that a path of keys leads to.
    pub fn get_inner(&self, parts: &Vec<String>) -> (r: Option<LSD>)
        ensures
            match node_get(Node::Level(self@), views(parts@)) {
                Some(n) => r matches Some(x) && x@ == n,
                None => r is None,
            },
    {
        assert(views(parts@).subrange(0, parts@.len() as int) =~= views(parts@));
        lookup_path(self, parts, 0)
    }

    /// The value that a path leads to; `invalid` where the path leads to a level.
    pub fn get_value<E>(&self, parts: &Vec<String>, invalid: E) -> (r: Result<Option<String>, E>)
        ensures
            match node_get(Node::Level(self@), views(parts@)) {
                None => r matches Ok(None),
                Some(Node::Value(v)) => r matches Ok(Some(x)) && x@ == v,
                Some(Node::Level(_)) => r == Err::<Option<String>, E>(invalid),
            },
    {
        match self.get_inner(parts) {
            None => Ok(None),
            Some(LSD::Value(v)) => Ok(Some(v)),
            Some(LSD::Level(_)) => Err(invalid),
        }
    }

    /// The level that a path leads to; `invalid` where the path leads to a value.
    pub fn get_level<E>(&self, parts: &Vec<String>, invalid: E) -> (r: Result<Option<Level>, E>)
        ensures
            match node_get(Node::Level(self@), views(parts@)) {
                None => r matches Ok(None),
                Some(Node::Level(l)) => r matches Ok(Some(x)) && x@ == l,
                Some(Node::Value(_)) => r == Err::<Option<Level>, E>(invalid),
            },
    {
        match self.get_inner(parts) {
            None => Ok(None),
            Some(LSD::Level(l)) => Ok(Some(l)),
            Some(LSD::Value(_)) => Err(invalid),
        }
    }

    /// The children, in order, of the level that a path leads to; `invalid`
    /// where the path leads to a value.
    pub fn get_list<E>(&self, parts: &Vec<String>, invalid: E) -> (r: Result<Option<Vec<LSD>>, E>)
        ensures
            match node_get(Node::Level(self@), views(parts@)) {
                None => r matches Ok(None),
                Some(Node::Level(l)) => r matches Ok(Some(x)) && x@.len() == l.len() && forall|i: int|
                    0 <= i < l.len() ==> (#[trigger] x@[i])@ == l[i].1,
                Some(Node::Value(_)) => r == Err::<Option<Vec<LSD>>, E>(invalid),
            },
    {
        match self.get_inner(parts) {
            None => Ok(None),
            Some(LSD::Level(l)) => Ok(Some(l.values())),
            Some(LSD::Value(_)) => Err(invalid),
        }
    }

    /// Copies of the children, in order.
    pub fn values(&self) -> (r: Vec<LSD>)
        ensures
            r@.len() == self@.len(),
            forall|i: int| 0 <= i < self@.len() ==> (#[trigger] r@[i])@ == self@[i].1,
    {
        proof {
            lemma_entries_of(self.entries@);
        }
        let mut out: Vec<LSD> = Vec::new();
        let mut i: usize = 0;
        while i < self.entries.len()
            invariant
                i <= self.entries@.len(),
                out@.len() == i,
                entries_of(self.entries@).len() == self.entries@.len(),
                forall|j: int| 0 <= j < self.entries@.len() ==> #[trigger] entries_of(self.entries@)[j]
                    == (self.entries@[j].0@, node_of(self.entries@[j].1)),
                forall|j: int| 0 <= j < i ==> (#[trigger] out@[j])@ == self@[j].1,
            decreases self.entries@.len() - i,
        {
            out.push(self.entries[i].1.copy());
            i = i + 1;
        }
        out
    }
}

fn lookup_path(l: &Level, parts: &Vec<String>, i: usize) -> (r: Option<LSD>)
    requires
        i <= parts@.len(),
    ensures
        match node_get(Node::Level(l@), views(parts@).subrange(i as int, parts@.len() as int)) {
            Some(n) => r matches Some(x) && x@ == n,
            None => r is None,
        },
    decreases parts@.len() - i,
{
    let ghost path = views(parts@).subrange(i as int, parts@.len() as int);
    assert(views(parts@).len() == parts@.len());
    if i == parts.len() {
        return Some(LSD::Level(l.copy()));
    }
    assert(path[0] == parts@[i as int]@);
    assert(path.drop_first() =~= views(parts@).subrange(i + 1, parts@.len() as int));
    assert(path.len() > 0);
    assert(node_get(Node::Level(l@), path) == match find(l@, path[0]) {
        Some(j) => node_get(l@[j].1, path.drop_first()),
        None => None,
    });
    let key = parts[i].as_str();
    assert(key@ == path[0]);
    match l.get(key) {
        None => None,
        Some(LSD::Value(v)) => {
            if i + 1 == parts.len() {
                Some(LSD::Value(v.clone()))
            } else {
                None
            }
        },
        Some(LSD::Level(sub)) => lookup_path(sub, parts, i + 1),
    }
}

impl LSD {
    /// A copy of the node.
    pub fn copy(&self) -> (r: LSD)
        ensures
            r@ == self@,
        decreases lsd_size(*self), 0int,
    {
        match self {
            LSD::Value(v) => LSD::Value(v.clone()),
            LSD::Level(l) => LSD::Level(l.copy()),
        }
    }

    /// The scalar, where the node is a value.
    pub fn to_value(&self) -> (r: Option<String>)
        ensures
            match self@ {
                Node::Value(v) => r matches Some(x) && x@ == v,
                Node::Level(_) => r is None,
            },
    {
        match self {
            LSD::Value(v) => Some(v.clone()),
            LSD::Level(_) => None,
        }
    }

    /// A copy of the level, where the node is one.
    pub fn to_level(&self) -> (r: Option<Level>)
        ensures
            match self@ {
                Node::Level(l) => r matches Some(x) && x@ == l,
                Node::Value(_) => r is None,
            },
    {
        match self {
            LSD::Level(l) => Some(l.copy()),
            LSD::Value(_) => None,
        }
    }

    /// Copies of the children in order, where the node is a level.
    pub fn to_list(&self) -> (r: Option<Vec<LSD>>)
        ensures
            match self@ {
                Node::Level(l) => r matches Some(x) && x@.len() == l.len() && forall|i: int|
                    0 <= i < l.len() ==> (#[trigger] x@[i])@ == l[i].1,
                Node::Value(_) => r is None,
            },
    {
        match self {
            LSD::Level(l) => Some(l.values()),
            LSD::Value(_) => None,
        }
    }

    /// Whether the node is a level whose keys all read as decimal indices.
    pub fn is_list(&self) -> (r: bool)
        ensures
            r == (self@ matches Node::Level(l) && level_is_list(l)),
    {
        match self {
            LSD::Level(l) => l.is_list(),
            LSD::Value(_) => false,
        }
    }

    /// The node that a path of keys leads to.
    pub fn get_inner(&self, parts: &Vec<String>) -> (r: Option<LSD>)
        ensures
            match node_get(self@, views(parts@)) {
                Some(n) => r matches Some(x) && x@ == n,
                None => r is None,
            },
    {
        match self {
            LSD::Level(l) => l.get_inner(parts),
            LSD::Value(v) => {
                if parts.len() == 0 {
                    Some(LSD::Value(v.clone()))
                } else {
                    None
                }
            },
        }
    }
}

} // verus!
