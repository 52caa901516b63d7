//! Character-level helpers shared by the catalog and the repository plumbing.

use vstd::prelude::*;

verus! {

/// The path obtained by appending `rel` to `base`, as a Unix `PathBuf::push`
/// does: an absolute `rel` replaces `base`; otherwise a `/` separates the two
/// unless `base` is empty or already ends in one.
pub open spec fn path_join(base: Seq<char>, rel: Seq<char>) -> Seq<char> {
    if rel.len() > 0 && rel[0] == '/' {
        rel
    } else if base.len() == 0 {
        rel
    } else if base.last() == '/' {
        base + rel
    } else {
        base + seq!['/'] + rel
    }
}

/// `s` followed by exactly one newline: unchanged if it already ends in one.
pub open spec fn newline_terminated(s: Seq<char>) -> Seq<char> {
    if s.len() > 0 && s.last() == '\n' {
        s
    } else {
        s.push('\n')
    }
}

/// Relies on `str::chars` collected into a `Vec`: the characters of `s` in order.
#[verifier::external_body]
pub(crate) fn chars_of(s: &str) -> (r: Vec<char>)
    ensures
        r@ == s@,
{
    s.chars().collect()
}

/// Relies on collecting characters into a `String`: the string of exactly those characters.
#[verifier::external_body]
pub(crate) fn string_of(cs: &[char]) -> (r: String)
    ensures
        r@ == cs@,
{
    cs.iter().collect()
}

/// Appends the characters of `s` to `out`.
pub(crate) fn append_chars(out: &mut Vec<char>, s: &str)
    ensures
        final(out)@ == old(out)@ + s@,
{
    let cs = chars_of(s);
    let mut i: usize = 0;
    while i < cs.len()
        invariant
            0 <= i <= cs.len(),
            out@ == old(out)@ + cs@.subrange(0, i as int),
        decreases cs.len() - i,
    {
        out.push(cs[i]);
        i += 1;
        assert(out@ =~= old(out)@ + cs@.subrange(0, i as int));
    }
    assert(cs@.subrange(0, cs@.len() as int) =~= cs@);
}

/// Resolves `rel` against the directory `base` (see [`path_join`]).
pub fn join_path(base: &str, rel: &str) -> (r: String)
    ensures
        r@ == path_join(base@, rel@),
{
    let b = chars_of(base);
    let t = chars_of(rel);
    if t.len() > 0 && t[0] == '/' {
        return string_of(t.as_slice());
    }
    if b.len() == 0 {
        return string_of(t.as_slice());
    }
    let mut out = b.clone();
    if b[b.len() - 1] != '/' {
        out.push('/');
    }
    let mut i: usize = 0;
    while i < t.len()
        invariant
            0 <= i <= t.len(),
            b@.len() > 0,
            out@ == (if b@.last() == '/' { b@ } else { b@ + seq!['/'] }) + t@.subrange(0, i as int),
        decreases t.len() - i,
    {
        out.push(t[i]);
        i += 1;
    }
    proof {
        assert(t@.subrange(0, t@.len() as int) == t@);
    }
    string_of(out.as_slice())
}

/// The serialized catalog text with exactly one trailing newline: one is
/// appended only where the text does not already end in a newline.
pub fn terminate_json(text: String) -> (r: String)
    ensures
        r@ == newline_terminated(text@),
{
    let cs = chars_of(text.as_str());
    if cs.len() > 0 && cs[cs.len() - 1] == '\n' {
        text
    } else {
        let mut out = cs;
        out.push('\n');
        string_of(out.as_slice())
    }
}

} // verus!
