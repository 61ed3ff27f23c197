//! Paths as text, joined the way `Path::join` joins relative components.
use vstd::prelude::*;

use crate::text::chars_of;
use crate::text::concat;
use crate::text::push_char;

verus! {

/// `a` joined with `b`: `b` alone when it is absolute or `a` is empty,
/// otherwise the two with one `'/'` between them.
pub open spec fn join(a: Seq<char>, b: Seq<char>) -> Seq<char> {
    if b.len() > 0 && b[0] == '/' {
        b
    } else if a.len() == 0 {
        b
    } else if a.last() == '/' {
        a + b
    } else {
        a + seq!['/'] + b
    }
}

/// `a` joined with `b`.
pub fn join_path(a: &str, b: &str) -> (r: String)
    ensures
        r@ == join(a@, b@),
{
    let x = chars_of(a);
    let y = chars_of(b);
    if y.len() > 0 && y[0] == '/' {
        return b.to_owned();
    }
    if x.len() == 0 {
        return b.to_owned();
    }
    if x[x.len() - 1] == '/' {
        concat(a, b)
    } else {
        let mut s = a.to_owned();
        push_char(&mut s, '/');
        s.append(b);
        assert(s@ == a@ + seq!['/'] + b@);
        s
    }
}

/// Every `{}` in `s` replaced by `w`, left to right.
pub open spec fn replace_braces(s: Seq<char>, w: Seq<char>) -> Seq<char>
    decreases s.len(),
{
    if s.len() == 0 {
        s
    } else if s.len() >= 2 && s[0] == '{' && s[1] == '}' {
        w + replace_braces(s.subrange(2, s.len() as int), w)
    } else {
        seq![s[0]] + replace_braces(s.drop_first(), w)
    }
}

/// Every `{}` in `s` replaced by `w`.
pub fn substitute(s: &str, w: &str) -> (r: String)
    ensures
        r@ == replace_braces(s@, w@),
{
    let c = chars_of(s);
    let n = c.len();
    let mut out = String::new();
    let mut i: usize = 0;
    assert(c@.subrange(0, n as int) =~= c@);
    assert(out@ + replace_braces(c@, w@) =~= replace_braces(c@, w@));
    while i < n
        invariant
            n == c@.len(),
            c@ == s@,
            i <= n,
            out@ + replace_braces(c@.subrange(i as int, n as int), w@) == replace_braces(s@, w@),
        decreases n - i,
    {
        let ghost rest = c@.subrange(i as int, n as int);
        if i + 1 < n && c[i] == '{' && c[i + 1] == '}' {
            assert(rest.subrange(2, rest.len() as int) =~= c@.subrange(i + 2, n as int));
            let ghost before = out@;
            out.append(w);
            assert(before + (w@ + replace_braces(c@.subrange(i + 2, n as int), w@)) =~= out@
                + replace_braces(c@.subrange(i + 2, n as int), w@));
            i = i + 2;
        } else {
            assert(rest.drop_first() =~= c@.subrange(i + 1, n as int));
            let ghost before = out@;
            push_char(&mut out, c[i]);
            assert(before + (seq![c@[i as int]] + replace_braces(c@.subrange(i + 1, n as int), w@))
                =~= out@ + replace_braces(c@.subrange(i + 1, n as int), w@));
            i = i + 1;
        }
    }
    assert(c@.subrange(n as int, n as int) =~= Seq::<char>::empty());
    assert(out@ + Seq::<char>::empty() =~= out@);
    out
}

} // verus!
