//! Content identity of a patch file.
//!
//! A patch exported from version control starts with a `commit <hash>` or
//! `From <hash>` line, and that hash is its identity. Any other patch is
//! identified by the SHA-256 digest of its whole content.

use vstd::prelude::*;

use sha2::Digest;

use crate::text::{chars_of, string_of};

verus! {

/// The lowercase hexadecimal SHA-256 digest of the UTF-8 encoding of `s`.
pub uninterp spec fn sha256_hex_of(s: Seq<char>) -> Seq<char>;

/// Relies on `sha2::Sha256` (`Digest::digest`) and the lowercase hex
/// formatting of its output: the digest of the string's bytes, as 64 hex digits.
#[verifier::external_body]
fn sha256_hex(s: &str) -> (r: String)
    ensures
        r@ == sha256_hex_of(s@),
{
    format!("{:x}", sha2::Sha256::digest(s.as_bytes()))
}

/// Whitespace as `char::is_whitespace` defines it (the Unicode `White_Space` property).
pub open spec fn is_ws(c: char) -> bool {
    ('\t' <= c && c <= '\r') || c == ' ' || c == '\u{85}' || c == '\u{a0}' || c == '\u{1680}'
        || ('\u{2000}' <= c && c <= '\u{200a}') || c == '\u{2028}' || c == '\u{2029}'
        || c == '\u{202f}' || c == '\u{205f}' || c == '\u{3000}'
}

/// The first index at or after `from` that holds `c`, or `s.len()` when there is none.
pub open spec fn find_from(s: Seq<char>, c: char, from: int) -> int
    decreases s.len() - from,
{
    if from >= s.len() {
        s.len() as int
    } else if s[from] == c {
        from
    } else {
        find_from(s, c, from + 1)
    }
}

/// The first index at or after `from` that holds no whitespace, or `s.len()`.
pub open spec fn skip_ws(s: Seq<char>, from: int) -> int
    decreases s.len() - from,
{
    if from >= s.len() {
        s.len() as int
    } else if !is_ws(s[from]) {
        from
    } else {
        skip_ws(s, from + 1)
    }
}

/// The end of `s.subrange(lo, n)` once trailing whitespace is dropped.
pub open spec fn trim_end(s: Seq<char>, lo: int, n: int) -> int
    decreases n - lo,
{
    if n <= lo {
        lo
    } else if is_ws(s[n - 1]) {
        trim_end(s, lo, n - 1)
    } else {
        n
    }
}

/// The first line of `s`, its newline included.
pub open spec fn first_line(s: Seq<char>) -> Seq<char> {
    let nl = find_from(s, '\n', 0);
    if nl < s.len() {
        s.subrange(0, nl + 1)
    } else {
        s
    }
}

/// `s` without leading and trailing whitespace, as `str::trim` returns it.
pub open spec fn trim(s: Seq<char>) -> Seq<char> {
    let lo = skip_ws(s, 0);
    s.subrange(lo, trim_end(s, lo, s.len() as int))
}

pub open spec fn commit_word() -> Seq<char> {
    seq!['c', 'o', 'm', 'm', 'i', 't']
}

pub open spec fn from_word() -> Seq<char> {
    seq!['F', 'r', 'o', 'm']
}

/// The hash named by a `commit <hash>` or `From <hash>` first line: the
/// trimmed first line is split at single spaces, its first piece must be one
/// of the two words and its second piece, taken verbatim, is the hash.
pub open spec fn header_hash(s: Seq<char>) -> Option<Seq<char>> {
    let line = trim(first_line(s));
    let sp = find_from(line, ' ', 0);
    if sp < line.len() {
        let word = line.subrange(0, sp);
        let rest = line.subrange(sp + 1, line.len() as int);
        if word == commit_word() || word == from_word() {
            Some(rest.subrange(0, find_from(rest, ' ', 0)))
        } else {
            None
        }
    } else {
        None
    }
}

/// The identity of a patch with content `s`.
pub open spec fn patch_identity(s: Seq<char>) -> Seq<char> {
    match header_hash(s) {
        Some(h) => h,
        None => sha256_hex_of(s),
    }
}

proof fn lemma_find_from_bounds(s: Seq<char>, c: char, from: int)
    requires
        0 <= from <= s.len(),
    ensures
        from <= find_from(s, c, from) <= s.len(),
        find_from(s, c, from) < s.len() ==> s[find_from(s, c, from)] == c,
        forall|k: int| from <= k < find_from(s, c, from) ==> s[k] != c,
    decreases s.len() - from,
{
    if from < s.len() && s[from] != c {
        lemma_find_from_bounds(s, c, from + 1);
    }
}

proof fn lemma_find_from_shift(s: Seq<char>, c: char, lo: int, hi: int, from: int)
    requires
        0 <= lo <= from <= hi <= s.len(),
    ensures
        find_from(s.subrange(lo, hi), c, from - lo) == if find_from(s, c, from) < hi {
            find_from(s, c, from) - lo
        } else {
            hi - lo
        },
    decreases hi - from,
{
    if from < hi && s[from] != c {
        lemma_find_from_shift(s, c, lo, hi, from + 1);
    } else if from >= hi {
        lemma_find_from_bounds(s, c, from);
    }
}

proof fn lemma_skip_ws_shift(s: Seq<char>, hi: int, from: int)
    requires
        0 <= from <= hi <= s.len(),
    ensures
        skip_ws(s.subrange(0, hi), from) == if skip_ws(s, from) < hi {
            skip_ws(s, from)
        } else {
            hi
        },
        from <= skip_ws(s, from) <= s.len(),
    decreases hi - from,
{
    if from < hi && is_ws(s[from]) {
        lemma_skip_ws_shift(s, hi, from + 1);
    } else if from >= hi {
        lemma_skip_ws_bounds(s, from);
    }
}

proof fn lemma_skip_ws_bounds(s: Seq<char>, from: int)
    requires
        0 <= from <= s.len(),
    ensures
        from <= skip_ws(s, from) <= s.len(),
    decreases s.len() - from,
{
    if from < s.len() && is_ws(s[from]) {
        lemma_skip_ws_bounds(s, from + 1);
    }
}

proof fn lemma_trim_end_shift(s: Seq<char>, hi: int, lo: int, n: int)
    requires
        0 <= lo <= n <= hi <= s.len(),
    ensures
        trim_end(s.subrange(0, hi), lo, n) == trim_end(s, lo, n),
        lo <= trim_end(s, lo, n) <= n,
    decreases n - lo,
{
    if n > lo && is_ws(s[n - 1]) {
        lemma_trim_end_shift(s, hi, lo, n - 1);
    }
}

fn is_whitespace(c: char) -> (r: bool)
    ensures
        r == is_ws(c),
{
    ('\t' <= c && c <= '\r') || c == ' ' || c == '\u{85}' || c == '\u{a0}' || c == '\u{1680}'
        || ('\u{2000}' <= c && c <= '\u{200a}') || c == '\u{2028}' || c == '\u{2029}'
        || c == '\u{202f}' || c == '\u{205f}' || c == '\u{3000}'
}

/// The first index in `lo..hi` that holds `c`, or `hi`.
fn find_in(cs: &Vec<char>, c: char, lo: usize, hi: usize) -> (r: usize)
    requires
        lo <= hi <= cs.len(),
    ensures
        r == find_from(cs@.subrange(0, hi as int), c, lo as int),
        lo <= r <= hi,
{
    let mut i = lo;
    while i < hi && cs[i] != c
        invariant
            lo <= i <= hi <= cs.len(),
            find_from(cs@.subrange(0, hi as int), c, i as int) == find_from(
                cs@.subrange(0, hi as int),
                c,
                lo as int,
            ),
        decreases hi - i,
    {
        i += 1;
    }
    i
}

/// Whether `cs[lo..hi]` spells `word`.
fn range_is(cs: &Vec<char>, lo: usize, hi: usize, word: &Vec<char>) -> (r: bool)
    requires
        lo <= hi <= cs.len(),
    ensures
        r == (cs@.subrange(lo as int, hi as int) == word@),
{
    if hi - lo != word.len() {
        return false;
    }
    let mut k: usize = 0;
    while k < word.len()
        invariant
            hi - lo == word.len(),
            lo <= hi <= cs.len(),
            0 <= k <= word.len(),
            forall|j: int| 0 <= j < k ==> cs@[lo + j] == word@[j],
        decreases word.len() - k,
    {
        if cs[lo + k] != word[k] {
            assert(cs@.subrange(lo as int, hi as int)[k as int] != word@[k as int]);
            return false;
        }
        k += 1;
    }
    assert(cs@.subrange(lo as int, hi as int) =~= word@);
    true
}

/// The characters `cs[lo..hi]`.
fn copy_range(cs: &Vec<char>, lo: usize, hi: usize) -> (r: Vec<char>)
    requires
        lo <= hi <= cs.len(),
    ensures
        r@ == cs@.subrange(lo as int, hi as int),
{
    let mut out: Vec<char> = Vec::new();
    let mut i = lo;
    while i < hi
        invariant
            lo <= i <= hi <= cs.len(),
            out@ == cs@.subrange(lo as int, i as int),
        decreases hi - i,
    {
        out.push(cs[i]);
        i += 1;
        assert(out@ =~= cs@.subrange(lo as int, i as int));
    }
    out
}

/// The bounds of the trimmed first line of `cs`.
fn trimmed_first_line(cs: &Vec<char>) -> (r: (usize, usize))
    ensures
        r.0 <= r.1 <= cs.len(),
        cs@.subrange(r.0 as int, r.1 as int) == trim(first_line(cs@)),
{
    let ghost s = cs@;
    let n = cs.len();
    let nl = find_in(cs, '\n', 0, n);
    let line_end = if nl < n {
        nl + 1
    } else {
        n
    };
    proof {
        assert(s.subrange(0, n as int) =~= s);
        assert(s.subrange(0, line_end as int) =~= first_line(s));
    }
    let ghost line = first_line(s);
    let mut lo: usize = 0;
    while lo < line_end && is_whitespace(cs[lo])
        invariant
            s == cs@,
            lo <= line_end <= n == cs.len(),
            skip_ws(s, lo as int) == skip_ws(s, 0),
        decreases line_end - lo,
    {
        lo += 1;
    }
    proof {
        lemma_skip_ws_shift(s, line_end as int, 0);
        lemma_skip_ws_shift(s, line_end as int, lo as int);
        assert(skip_ws(line, 0) == lo);
    }
    let mut hi = line_end;
    while hi > lo && is_whitespace(cs[hi - 1])
        invariant
            s == cs@,
            lo <= hi <= line_end <= n == cs.len(),
            trim_end(s, lo as int, hi as int) == trim_end(s, lo as int, line_end as int),
        decreases hi - lo,
    {
        hi -= 1;
    }
    proof {
        lemma_trim_end_shift(s, line_end as int, lo as int, line_end as int);
        assert(trim_end(line, lo as int, line.len() as int) == hi);
        assert(trim(line) =~= s.subrange(lo as int, hi as int));
    }
    (lo, hi)
}

/// The identity of a patch file with content `patch_contents`: the hash named
/// on a `commit <hash>` or `From <hash>` first line, else the lowercase hex
/// SHA-256 digest of the whole content.
pub fn hash_from_patch(patch_contents: &str) -> (r: String)
    ensures
        r@ == patch_identity(patch_contents@),
{
    let cs = chars_of(patch_contents);
    let ghost s = cs@;
    let (lo, hi) = trimmed_first_line(&cs);
    let ghost tl = trim(first_line(s));
    let sp = find_in(&cs, ' ', lo, hi);
    proof {
        lemma_find_from_shift(s.subrange(0, hi as int), ' ', lo as int, hi as int, lo as int);
        assert(s.subrange(0, hi as int).subrange(lo as int, hi as int) =~= tl);
        assert(find_from(tl, ' ', 0) == sp - lo);
    }
    if sp < hi {
        let commit = chars_of("commit");
        let from = chars_of("From");
        proof {
            reveal_strlit("commit");
            reveal_strlit("From");
            assert(commit@ =~= commit_word());
            assert(from@ =~= from_word());
            assert(tl.subrange(0, sp - lo) =~= s.subrange(lo as int, sp as int));
        }
        if range_is(&cs, lo, sp, &commit) || range_is(&cs, lo, sp, &from) {
            let end = find_in(&cs, ' ', sp + 1, hi);
            proof {
                let rest = tl.subrange(sp - lo + 1, tl.len() as int);
                assert(rest =~= s.subrange(0, hi as int).subrange(sp + 1, hi as int));
                lemma_find_from_shift(s.subrange(0, hi as int), ' ', sp + 1, hi as int, sp + 1);
                assert(find_from(rest, ' ', 0) == end - sp - 1);
                assert(rest.subrange(0, end - sp - 1) =~= s.subrange(sp + 1, end as int));
            }
            let h = copy_range(&cs, sp + 1, end);
            return string_of(h.as_slice());
        }
    }
    sha256_hex(patch_contents)
}

} // verus!
