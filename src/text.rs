//! Character-level helpers: whitespace, trimming, word splitting, file-name
//! splitting and hexadecimal escapes.
use vstd::prelude::*;
use vstd::std_specs::iter::IteratorSpec;

verus! {

/// The Unicode `White_Space` property, the set that `char::is_whitespace` tests.
pub open spec fn is_space(c: char) -> bool {
    let u = c as u32;
    ||| 0x9 <= u <= 0xd
    ||| u == 0x20
    ||| u == 0x85
    ||| u == 0xa0
    ||| u == 0x1680
    ||| 0x2000 <= u <= 0x200a
    ||| u == 0x2028
    ||| u == 0x2029
    ||| u == 0x202f
    ||| u == 0x205f
    ||| u == 0x3000
}

/// Whether `c` is whitespace, as `char::is_whitespace` tells.
pub fn is_whitespace(c: char) -> (r: bool)
    ensures
        r == is_space(c),
{
    let u = c as u32;
    (0x9 <= u && u <= 0xd) || u == 0x20 || u == 0x85 || u == 0xa0 || u == 0x1680 || (0x2000 <= u
        && u <= 0x200a) || u == 0x2028 || u == 0x2029 || u == 0x202f || u == 0x205f || u == 0x3000
}

/// First index at or after `i` (and before `hi`) that does not hold whitespace, else `hi`.
pub open spec fn skip_space(s: Seq<char>, i: int, hi: int) -> int
    decreases hi - i,
{
    if i < hi && is_space(s[i]) {
        skip_space(s, i + 1, hi)
    } else {
        i
    }
}

/// First index at or after `i` (and before `hi`) that holds whitespace, else `hi`.
pub open spec fn word_end(s: Seq<char>, i: int, hi: int) -> int
    decreases hi - i,
{
    if i < hi && !is_space(s[i]) {
        word_end(s, i + 1, hi)
    } else {
        i
    }
}

/// End of the range `lo..hi` once trailing whitespace is dropped.
pub open spec fn trim_end_at(s: Seq<char>, lo: int, hi: int) -> int
    decreases hi - lo,
{
    if lo < hi && is_space(s[hi - 1]) {
        trim_end_at(s, lo, hi - 1)
    } else {
        hi
    }
}

/// `s[lo..hi]` without leading and trailing whitespace.
pub open spec fn trimmed(s: Seq<char>, lo: int, hi: int) -> Seq<char> {
    let a = skip_space(s, lo, hi);
    s.subrange(a, trim_end_at(s, a, hi))
}

/// `s` without leading and trailing whitespace.
pub open spec fn trim(s: Seq<char>) -> Seq<char> {
    trimmed(s, 0, s.len() as int)
}

pub proof fn lemma_skip_space(s: Seq<char>, i: int, hi: int)
    requires
        i <= hi,
    ensures
        i <= skip_space(s, i, hi) <= hi,
        forall|k: int| i <= k < skip_space(s, i, hi) ==> is_space(#[trigger] s[k]),
        skip_space(s, i, hi) < hi ==> !is_space(s[skip_space(s, i, hi)]),
    decreases hi - i,
{
    if i < hi && is_space(s[i]) {
        lemma_skip_space(s, i + 1, hi);
    }
}

pub proof fn lemma_word_end(s: Seq<char>, i: int, hi: int)
    requires
        i <= hi,
    ensures
        i <= word_end(s, i, hi) <= hi,
        forall|k: int| i <= k < word_end(s, i, hi) ==> !is_space(#[trigger] s[k]),
        word_end(s, i, hi) < hi ==> is_space(s[word_end(s, i, hi)]),
    decreases hi - i,
{
    if i < hi && !is_space(s[i]) {
        lemma_word_end(s, i + 1, hi);
    }
}

pub proof fn lemma_trim_end(s: Seq<char>, lo: int, hi: int)
    requires
        lo <= hi,
    ensures
        lo <= trim_end_at(s, lo, hi) <= hi,
        forall|k: int| trim_end_at(s, lo, hi) <= k < hi ==> is_space(#[trigger] s[k]),
        trim_end_at(s, lo, hi) > lo ==> !is_space(s[trim_end_at(s, lo, hi) - 1]),
    decreases hi - lo,
{
    if lo < hi && is_space(s[hi - 1]) {
        lemma_trim_end(s, lo, hi - 1);
    }
}

/// The whitespace-separated words of `s[i..hi]`, in order.
pub open spec fn words_in(s: Seq<char>, i: int, hi: int) -> Seq<Seq<char>>
    decreases hi - i,
{
    if i >= hi {
        Seq::empty()
    } else if is_space(s[i]) {
        words_in(s, i + 1, hi)
    } else {
        let e = word_end(s, i + 1, hi);
        if i < e <= hi {
            seq![s.subrange(i, e)] + words_in(s, e, hi)
        } else {
            Seq::empty()
        }
    }
}

/// The whitespace-separated words of `s`, as `str::split_whitespace` yields them.
pub open spec fn words(s: Seq<char>) -> Seq<Seq<char>> {
    words_in(s, 0, s.len() as int)
}

/// The characters of `text`, in order.
pub fn chars_of(text: &str) -> (r: Vec<char>)
    ensures
        r@ == text@,
{
    broadcast use vstd::string::group_string_axioms;

    let mut it = text.chars();
    let mut out: Vec<char> = Vec::new();
    loop
        invariant
            it.obeys_prophetic_iter_laws(),
            it.decrease() is Some,
            out@ + it.remaining() == text@,
        decreases it.decrease()->0,
    {
        match it.next() {
            Some(c) => {
                out.push(c);
            },
            None => {
                return out;
            },
        }
    }
}

/// Relies on `String::push`: appends one character.
#[verifier::external_body]
pub(crate) fn push_char(s: &mut String, c: char)
    ensures
        final(s)@ == old(s)@.push(c),
{
    s.push(c);
}

/// The string made of `chars[lo..hi]`.
pub fn string_of(chars: &Vec<char>, lo: usize, hi: usize) -> (r: String)
    requires
        lo <= hi <= chars@.len(),
    ensures
        r@ == chars@.subrange(lo as int, hi as int),
{
    let mut out = String::new();
    let mut i = lo;
    while i < hi
        invariant
            lo <= i <= hi <= chars@.len(),
            out@ == chars@.subrange(lo as int, i as int),
        decreases hi - i,
    {
        push_char(&mut out, chars[i]);
        assert(chars@.subrange(lo as int, i + 1) == chars@.subrange(lo as int, i as int).push(
            chars@[i as int],
        ));
        i = i + 1;
    }
    out
}

/// The string holding `a` followed by `b`.
pub fn concat(a: &str, b: &str) -> (r: String)
    ensures
        r@ == a@ + b@,
{
    let mut out = a.to_owned();
    out.append(b);
    out
}

/// Whether two strings hold the same characters.
pub fn str_eq(a: &str, b: &str) -> (r: bool)
    ensures
        r == (a@ == b@),
{
    let x = chars_of(a);
    let y = chars_of(b);
    if x.len() != y.len() {
        return false;
    }
    let mut i: usize = 0;
    while i < x.len()
        invariant
            x@.len() == y@.len(),
            x@ == a@,
            y@ == b@,
            i <= x@.len(),
            forall|k: int| 0 <= k < i ==> x@[k] == y@[k],
        decreases x@.len() - i,
    {
        if x[i] != y[i] {
            assert(x@[i as int] != y@[i as int]);
            return false;
        }
        i = i + 1;
    }
    assert(x@ =~= y@);
    true
}

/// `s` without leading and trailing whitespace.
pub fn trim_str(s: &str) -> (r: String)
    ensures
        r@ == trim(s@),
{
    let c = chars_of(s);
    let (a, b) = trim_range(&c, 0, c.len());
    string_of(&c, a, b)
}

/// The bounds of `chars[lo..hi]` once its leading and trailing whitespace is dropped.
pub fn trim_range(chars: &Vec<char>, lo: usize, hi: usize) -> (r: (usize, usize))
    requires
        lo <= hi <= chars@.len(),
    ensures
        r.0 == skip_space(chars@, lo as int, hi as int),
        r.1 == trim_end_at(chars@, r.0 as int, hi as int),
        lo <= r.0 <= r.1 <= hi,
        chars@.subrange(r.0 as int, r.1 as int) == trimmed(chars@, lo as int, hi as int),
{
    let a = skip_spaces(chars, lo, hi);
    let mut b = hi;
    proof {
        lemma_trim_end(chars@, a as int, hi as int);
    }
    while a < b && is_whitespace(chars[b - 1])
        invariant
            lo <= a <= b <= hi <= chars@.len(),
            trim_end_at(chars@, a as int, b as int) == trim_end_at(chars@, a as int, hi as int),
        decreases b,
    {
        b = b - 1;
    }
    (a, b)
}

/// First index at or after `i` (and before `hi`) that does not hold whitespace, else `hi`.
pub fn skip_spaces(chars: &Vec<char>, i: usize, hi: usize) -> (r: usize)
    requires
        i <= hi <= chars@.len(),
    ensures
        r == skip_space(chars@, i as int, hi as int),
        i <= r <= hi,
{
    let mut j = i;
    while j < hi && is_whitespace(chars[j])
        invariant
            i <= j <= hi <= chars@.len(),
            skip_space(chars@, j as int, hi as int) == skip_space(chars@, i as int, hi as int),
        decreases hi - j,
    {
        j = j + 1;
    }
    j
}

/// First index at or after `i` (and before `hi`) that holds whitespace, else `hi`.
pub fn find_word_end(chars: &Vec<char>, i: usize, hi: usize) -> (r: usize)
    requires
        i <= hi <= chars@.len(),
    ensures
        r == word_end(chars@, i as int, hi as int),
        i <= r <= hi,
{
    let mut j = i;
    while j < hi && !is_whitespace(chars[j])
        invariant
            i <= j <= hi <= chars@.len(),
            word_end(chars@, j as int, hi as int) == word_end(chars@, i as int, hi as int),
        decreases hi - j,
    {
        j = j + 1;
    }
    j
}

/// The whitespace-separated words of `s`, in order.
pub fn split_whitespace(s: &str) -> (r: Vec<String>)
    ensures
        r@.len() == words(s@).len(),
        forall|k: int| 0 <= k < r@.len() ==> #[trigger] r@[k]@ == words(s@)[k],
{
    let c = chars_of(s);
    let n = c.len();
    let mut out: Vec<String> = Vec::new();
    let mut i: usize = 0;
    let ghost done: Seq<Seq<char>> = Seq::empty();
    while i < n
        invariant
            n == c@.len(),
            c@ == s@,
            i <= n,
            out@.len() == done.len(),
            forall|k: int| 0 <= k < out@.len() ==> #[trigger] out@[k]@ == done[k],
            done + words_in(c@, i as int, n as int) == words(s@),
        decreases n - i,
    {
        if is_whitespace(c[i]) {
            i = i + 1;
        } else {
            let e = find_word_end(&c, i + 1, n);
            let w = string_of(&c, i, e);
            proof {
                lemma_word_end(c@, i + 1, n as int);
                assert(words_in(c@, i as int, n as int) == seq![c@.subrange(i as int, e as int)]
                    + words_in(c@, e as int, n as int));
                assert(done + words_in(c@, i as int, n as int) == done.push(
                    c@.subrange(i as int, e as int),
                ) + words_in(c@, e as int, n as int));
                done = done.push(c@.subrange(i as int, e as int));
            }
            out.push(w);
            i = e;
        }
    }
    assert(done == words(s@));
    out
}

/// The words of `s` when there are exactly two of them.
pub open spec fn two_words(s: Seq<char>) -> Option<(Seq<char>, Seq<char>)> {
    if words(s).len() == 2 {
        Some((words(s)[0], words(s)[1]))
    } else {
        None
    }
}

/// Whether the words of `s` are exactly `a` then `b`.
pub open spec fn words_are(s: Seq<char>, a: Seq<char>, b: Seq<char>) -> bool {
    two_words(s) == Some((a, b))
}

/// Splits `s` into exactly two whitespace-separated words, or `None` where it
/// holds another number of words.
pub fn split_into_two_words(s: &str) -> (r: Option<(String, String)>)
    ensures
        match r {
            Some((a, b)) => two_words(s@) == Some((a@, b@)),
            None => two_words(s@) is None,
        },
{
    let w = split_whitespace(s);
    if w.len() == 2 {
        Some((w[0].clone(), w[1].clone()))
    } else {
        None
    }
}

/// Whether the words of `s` are exactly `a` then `b`.
pub fn has_words(s: &str, a: &str, b: &str) -> (r: bool)
    ensures
        r == words_are(s@, a@, b@),
{
    match split_into_two_words(s) {
        Some((x, y)) => str_eq(&x, a) && str_eq(&y, b),
        None => false,
    }
}

/// Index of the last `'.'` in `s`, if any.
pub open spec fn last_dot(s: Seq<char>) -> Option<int>
    decreases s.len(),
{
    if s.len() == 0 {
        None
    } else if s.last() == '.' {
        Some(s.len() - 1)
    } else {
        last_dot(s.drop_last())
    }
}

pub proof fn lemma_last_dot(s: Seq<char>)
    ensures
        last_dot(s) matches Some(i) ==> 0 <= i < s.len() && s[i] == '.' && forall|k: int|
            i < k < s.len() ==> s[k] != '.',
        last_dot(s) is None ==> forall|k: int| 0 <= k < s.len() ==> s[k] != '.',
    decreases s.len(),
{
    if s.len() > 0 && s.last() != '.' {
        lemma_last_dot(s.drop_last());
        assert forall|k: int| 0 <= k < s.len() - 1 implies s.drop_last()[k] == s[k] by {}
    }
}

/// A file name split at its last `'.'` into stem and extension; a name with no
/// `'.'` gives two empty parts.
pub open spec fn file_name_parts(s: Seq<char>) -> (Seq<char>, Seq<char>) {
    match last_dot(s) {
        Some(i) => (s.subrange(0, i), s.subrange(i + 1, s.len() as int)),
        None => (Seq::empty(), Seq::empty()),
    }
}

/// Splits a file name into stem and extension at its last `'.'`.
pub fn split_file_name(filename: &str) -> (r: (String, String))
    ensures
        (r.0@, r.1@) == file_name_parts(filename@),
{
    let c = chars_of(filename);
    let mut i = c.len();
    while i > 0 && c[i - 1] != '.'
        invariant
            i <= c@.len(),
            forall|k: int| i <= k < c@.len() ==> c@[k] != '.',
        decreases i,
    {
        i = i - 1;
    }
    proof {
        lemma_last_dot(c@);
    }
    if i == 0 {
        (String::new(), String::new())
    } else {
        (string_of(&c, 0, i - 1), string_of(&c, i, c.len()))
    }
}

/// The value of a hexadecimal digit.
pub open spec fn hex_value(c: char) -> Option<int> {
    if 'a' <= c && c <= 'f' {
        Some(c as int - 'a' as int + 10)
    } else if 'A' <= c && c <= 'F' {
        Some(c as int - 'A' as int + 10)
    } else if '0' <= c && c <= '9' {
        Some(c as int - '0' as int)
    } else {
        None
    }
}

/// The number that four hexadecimal digits spell, most significant first.
pub open spec fn hex4_value(c1: char, c2: char, c3: char, c4: char) -> Option<int> {
    match (hex_value(c1), hex_value(c2), hex_value(c3), hex_value(c4)) {
        (Some(a), Some(b), Some(c), Some(d)) => Some(a * 4096 + b * 256 + c * 16 + d),
        _ => None,
    }
}

fn hex_digit(c: char) -> (r: Option<u16>)
    ensures
        match r {
            Some(v) => hex_value(c) == Some(v as int) && v < 16,
            None => hex_value(c) is None,
        },
{
    if 'a' <= c && c <= 'f' {
        Some((c as u32 - 'a' as u32 + 10) as u16)
    } else if 'A' <= c && c <= 'F' {
        Some((c as u32 - 'A' as u32 + 10) as u16)
    } else if '0' <= c && c <= '9' {
        Some((c as u32 - '0' as u32) as u16)
    } else {
        None
    }
}

/// The 16-bit number that four hexadecimal digits spell, or `Err(())` when one
/// of them is not a hexadecimal digit.
pub fn u16_from_4_hex_chars(ch1: char, ch2: char, ch3: char, ch4: char) -> (r: Result<u16, ()>)
    ensures
        match r {
            Ok(v) => hex4_value(ch1, ch2, ch3, ch4) == Some(v as int),
            Err(()) => hex4_value(ch1, ch2, ch3, ch4) is None,
        },
{
    let a = match hex_digit(ch1) {
        Some(v) => v,
        None => return Err(()),
    };
    let b = match hex_digit(ch2) {
        Some(v) => v,
        None => return Err(()),
    };
    let c = match hex_digit(ch3) {
        Some(v) => v,
        None => return Err(()),
    };
    let d = match hex_digit(ch4) {
        Some(v) => v,
        None => return Err(()),
    };
    Ok(a * 4096 + b * 256 + c * 16 + d)
}

/// What `str::to_lowercase` makes of a text: the lowercase mapping of each
/// character, by the Unicode tables.
pub uninterp spec fn lowercase_of(s: Seq<char>) -> Seq<char>;

/// Relies on `str::to_lowercase`: the result is a function of the characters alone.
#[verifier::external_body]
pub(crate) fn to_lowercase(s: &str) -> (r: String)
    ensures
        r@ == lowercase_of(s@),
{
    s.to_lowercase()
}

/// An owned copy of `s`.
pub fn owned(s: &str) -> (r: String)
    ensures
        r@ == s@,
{
    s.to_owned()
}

//
// Indentation
//

/// The pieces of `s` between the separators `sep`, in order.
pub open spec fn pieces(s: Seq<char>, sep: char) -> Seq<Seq<char>>
    decreases s.len(),
{
    if s.len() == 0 {
        seq![Seq::empty()]
    } else {
        let r = pieces(s.drop_last(), sep);
        if s.last() == sep {
            r.push(Seq::empty())
        } else {
            r.update(r.len() - 1, r.last().push(s.last()))
        }
    }
}

pub proof fn lemma_pieces_len(s: Seq<char>, sep: char)
    ensures
        pieces(s, sep).len() >= 1,
    decreases s.len(),
{
    if s.len() > 0 {
        lemma_pieces_len(s.drop_last(), sep);
    }
}

/// `l` without one trailing carriage return.
pub open spec fn strip_cr(l: Seq<char>) -> Seq<char> {
    if l.len() > 0 && l.last() == '\r' {
        l.drop_last()
    } else {
        l
    }
}

/// Whether the text ends its last line with a newline (or is empty).
pub open spec fn ends_lines(s: Seq<char>) -> bool {
    s.len() == 0 || s.last() == '\n'
}

/// The lines of `s` as `str::lines` yields them: split at `'\n'`, a `'\r'`
/// before a `'\n'` dropped, and no empty line after a final `'\n'`.
pub open spec fn lines_of(s: Seq<char>) -> Seq<Seq<char>> {
    let p = pieces(s, '\n');
    let kept = if ends_lines(s) {
        p.drop_last()
    } else {
        p
    };
    Seq::new(
        kept.len(),
        |i: int|
            if i < kept.len() - 1 || ends_lines(s) {
                strip_cr(kept[i])
            } else {
                kept[i]
            },
    )
}

/// Whether every character is ASCII.
pub open spec fn all_ascii(s: Seq<char>) -> bool {
    forall|i: int| 0 <= i < s.len() ==> (#[trigger] s[i] as u32) < 0x80
}

/// The number of leading whitespace characters of `s`.
pub open spec fn indent_of(s: Seq<char>) -> int {
    skip_space(s, 0, s.len() as int)
}

/// The least indent among the lines after the first; zero when there are none.
pub open spec fn min_indent(ls: Seq<Seq<char>>) -> int
    decreases ls.len(),
{
    if ls.len() <= 1 {
        0
    } else if ls.len() == 2 {
        indent_of(ls[1])
    } else {
        let m = min_indent(ls.drop_last());
        let x = indent_of(ls.last());
        if x < m {
            x
        } else {
            m
        }
    }
}

/// Each line without its first `k` characters and with a newline after it.
pub open spec fn dedented(ls: Seq<Seq<char>>, k: int) -> Seq<char>
    decreases ls.len(),
{
    if ls.len() == 0 {
        Seq::empty()
    } else {
        dedented(ls.drop_last(), k) + ls.last().subrange(k, ls.last().len() as int) + seq!['\n']
    }
}

/// The number of bytes of leading whitespace in an ASCII text.
pub fn count_indent(text: &str) -> (r: usize)
    requires
        all_ascii(text@),
    ensures
        r == indent_of(text@),
{
    let c = chars_of(text);
    skip_spaces(&c, 0, c.len())
}

proof fn lemma_min_indent_bound(ls: Seq<Seq<char>>, j: int)
    requires
        1 <= j < ls.len(),
    ensures
        min_indent(ls) <= indent_of(ls[j]),
    decreases ls.len(),
{
    if ls.len() > 2 {
        if j < ls.len() - 1 {
            lemma_min_indent_bound(ls.drop_last(), j);
        }
    }
}

/// The least indent among the lines after the first; zero when there are none.
fn min_line_indent(ls: &Vec<String>) -> (r: usize)
    ensures
        r == min_indent(views(ls@)),
{
    let ghost lv = views(ls@);
    let n = ls.len();
    let mut to_trim: usize = 0;
    let mut i: usize = 1;
    while i < n
        invariant
            n == lv.len(),
            ls@.len() == n,
            lv == views(ls@),
            1 <= i,
            i <= n || n == 0,
            n > 1 && i >= 2 ==> to_trim == min_indent(lv.subrange(0, i as int)),
            n <= 1 || i == 1 ==> to_trim == 0,
        decreases n - i,
    {
        let c = chars_of(ls[i].as_str());
        let x = skip_spaces(&c, 0, c.len());
        let ghost pre = lv.subrange(0, i + 1);
        assert(pre.drop_last() =~= lv.subrange(0, i as int));
        assert(pre.last() == lv[i as int]);
        if i == 1 || x < to_trim {
            to_trim = x;
        }
        i = i + 1;
    }
    proof {
        if n > 1 {
            assert(lv.subrange(0, n as int) =~= lv);
        }
    }
    to_trim
}

/// The views of a sequence of strings.
pub open spec fn views(v: Seq<String>) -> Seq<Seq<char>> {
    v.map_values(|x: String| x@)
}

/// Whether `format_multiline_code` takes `text`: it is ASCII and its first
/// line is no shorter than the indent that is removed.
pub fn can_format_multiline_code(text: &str) -> (r: bool)
    ensures
        r == (all_ascii(text@) && (lines_of(text@).len() > 0 ==> lines_of(text@)[0].len() >= min_indent(
            lines_of(text@),
        ))),
{
    let c = chars_of(text);
    let mut i: usize = 0;
    while i < c.len()
        invariant
            i <= c@.len(),
            c@ == text@,
            forall|k: int| 0 <= k < i ==> (#[trigger] c@[k] as u32) < 0x80,
        decreases c@.len() - i,
    {
        if c[i] as u32 >= 0x80 {
            return false;
        }
        i = i + 1;
    }
    let ls = lines(text);
    assert(views(ls@) =~= lines_of(text@));
    let m = min_line_indent(&ls);
    if ls.len() == 0 {
        return true;
    }
    chars_of(ls[0].as_str()).len() >= m
}

/// A block of ASCII code written indented inside other text: the common
/// indent of the lines after the first is removed from every line, and the
/// result is trimmed.
pub fn format_multiline_code(text: &str) -> (r: String)
    requires
        all_ascii(text@),
        lines_of(text@).len() > 0 ==> lines_of(text@)[0].len() >= min_indent(lines_of(text@)),
    ensures
        r@ == trim(dedented(lines_of(text@), min_indent(lines_of(text@)))),
{
    let ls = lines(text);
    let ghost lv = lines_of(text@);
    let n = ls.len();
    assert(views(ls@) =~= lv);
    let to_trim = min_line_indent(&ls);
    let mut out = String::new();
    let mut k: usize = 0;
    assert(lv.subrange(0, 0) =~= Seq::<Seq<char>>::empty());
    while k < n
        invariant
            n == lv.len(),
            ls@.len() == n,
            forall|j: int| 0 <= j < n ==> #[trigger] ls@[j]@ == lv[j],
            to_trim == min_indent(lv),
            k <= n,
            n > 0 ==> lv[0].len() >= min_indent(lv),
            out@ == dedented(lv.subrange(0, k as int), to_trim as int),
        decreases n - k,
    {
        let c = chars_of(ls[k].as_str());
        proof {
            if k > 0 {
                lemma_min_indent_bound(lv, k as int);
                lemma_skip_space(lv[k as int], 0, lv[k as int].len() as int);
            }
        }
        let ghost pre = lv.subrange(0, k + 1);
        assert(pre.drop_last() =~= lv.subrange(0, k as int));
        assert(pre.last() == lv[k as int]);
        let piece = string_of(&c, to_trim, c.len());
        out.append(piece.as_str());
        push_char(&mut out, '\n');
        k = k + 1;
    }
    assert(lv.subrange(0, n as int) =~= lv);
    assert(out@ == dedented(lv, min_indent(lv)));
    trim_str(out.as_str())
}

/// The lines of `text`, as `str::lines` yields them.
pub fn lines(text: &str) -> (r: Vec<String>)
    ensures
        r@.len() == lines_of(text@).len(),
        forall|i: int| 0 <= i < r@.len() ==> #[trigger] r@[i]@ == lines_of(text@)[i],
{
    let c = chars_of(text);
    let n = c.len();
    let mut done: Vec<String> = Vec::new();
    let mut lo: usize = 0;
    let mut i: usize = 0;
    while i < n
        invariant
            n == c@.len(),
            c@ == text@,
            lo <= i <= n,
            done@.len() + 1 == pieces(c@.subrange(0, i as int), '\n').len(),
            forall|j: int| 0 <= j < done@.len() ==> #[trigger] done@[j]@ == strip_cr(
                pieces(c@.subrange(0, i as int), '\n')[j],
            ),
            c@.subrange(lo as int, i as int) == pieces(c@.subrange(0, i as int), '\n').last(),
        decreases n - i,
    {
        let ghost before = c@.subrange(0, i as int);
        assert(c@.subrange(0, i + 1).drop_last() =~= before);
        if c[i] == '\n' {
            let hi = if i > lo && c[i - 1] == '\r' {
                i - 1
            } else {
                i
            };
            assert(c@.subrange(lo as int, hi as int) =~= strip_cr(c@.subrange(lo as int, i as int)));
            done.push(string_of(&c, lo, hi));
            lo = i + 1;
            assert(c@.subrange(lo as int, i + 1) =~= Seq::<char>::empty());
        } else {
            assert(c@.subrange(lo as int, i + 1) =~= c@.subrange(lo as int, i as int).push(c@[i as int]));
        }
        i = i + 1;
    }
    assert(c@.subrange(0, n as int) =~= c@);
    proof {
        lemma_pieces_len(c@, '\n');
    }
    if !(n == 0 || c[n - 1] == '\n') {
        done.push(string_of(&c, lo, n));
    } else if n > 0 {
        assert(c@.subrange(lo as int, n as int) =~= Seq::<char>::empty());
    }
    done
}

} // verus!
