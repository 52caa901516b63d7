//! The patch catalog: records, collections, and the operations that copy,
//! filter, map and display them.

use vstd::prelude::*;

use crate::text::{append_chars, join_path, path_join, string_of};

verus! {

/// The window of upstream revisions a patch applies to: `from` inclusive,
/// `until` exclusive, either bound absent meaning unbounded.
#[derive(Clone, Copy, Debug, PartialEq, Eq, Structural)]
pub struct VersionRange {
    pub from: Option<u64>,
    pub until: Option<u64>,
}

/// One catalog entry.
///
/// `metadata` holds the record's metadata object as (key, JSON text of the
/// value) pairs; it is carried through unchanged. `platforms` is a set of
/// distribution tags: the order and repetition of its entries carry no meaning.
#[derive(Debug)]
pub struct PatchDictSchema {
    pub metadata: Option<Vec<(String, String)>>,
    pub platforms: Vec<String>,
    pub rel_patch_path: String,
    pub version_range: Option<VersionRange>,
}

/// The mathematical value of a [`PatchDictSchema`].
pub struct PatchSpec {
    pub metadata: Option<Seq<(Seq<char>, Seq<char>)>>,
    pub platforms: Set<Seq<char>>,
    pub rel_patch_path: Seq<char>,
    pub version_range: Option<VersionRange>,
}

pub open spec fn string_seq(v: Seq<String>) -> Seq<Seq<char>> {
    v.map_values(|s: String| s@)
}

pub open spec fn pair_seq(v: Seq<(String, String)>) -> Seq<(Seq<char>, Seq<char>)> {
    v.map_values(|e: (String, String)| (e.0@, e.1@))
}

pub open spec fn metadata_view(m: Option<Vec<(String, String)>>) -> Option<
    Seq<(Seq<char>, Seq<char>)>,
> {
    match m {
        Some(v) => Some(pair_seq(v@)),
        None => None,
    }
}

impl View for PatchDictSchema {
    type V = PatchSpec;

    open spec fn view(&self) -> PatchSpec {
        PatchSpec {
            metadata: metadata_view(self.metadata),
            platforms: string_seq(self.platforms@).to_set(),
            rel_patch_path: self.rel_patch_path@,
            version_range: self.version_range,
        }
    }
}

pub open spec fn range_from(r: Option<VersionRange>) -> Option<u64> {
    match r {
        Some(v) => v.from,
        None => None,
    }
}

pub open spec fn range_until(r: Option<VersionRange>) -> Option<u64> {
    match r {
        Some(v) => v.until,
        None => None,
    }
}

pub(crate) fn copy_strings(v: &Vec<String>) -> (r: Vec<String>)
    ensures
        r@ == v@,
{
    let mut out: Vec<String> = Vec::new();
    let mut i: usize = 0;
    while i < v.len()
        invariant
            0 <= i <= v.len(),
            out@ == v@.subrange(0, i as int),
        decreases v.len() - i,
    {
        out.push(v[i].clone());
        i += 1;
        assert(out@ =~= v@.subrange(0, i as int));
    }
    assert(v@.subrange(0, v@.len() as int) =~= v@);
    out
}

fn copy_pairs(v: &Vec<(String, String)>) -> (r: Vec<(String, String)>)
    ensures
        r@ == v@,
{
    let mut out: Vec<(String, String)> = Vec::new();
    let mut i: usize = 0;
    while i < v.len()
        invariant
            0 <= i <= v.len(),
            out@ == v@.subrange(0, i as int),
        decreases v.len() - i,
    {
        let e = &v[i];
        out.push((e.0.clone(), e.1.clone()));
        i += 1;
        assert(out@ =~= v@.subrange(0, i as int));
    }
    assert(v@.subrange(0, v@.len() as int) =~= v@);
    out
}

impl Clone for PatchDictSchema {
    fn clone(&self) -> (r: Self)
        ensures
            r@ == self@,
    {
        let metadata = match &self.metadata {
            Some(m) => Some(copy_pairs(m)),
            None => None,
        };
        PatchDictSchema {
            metadata,
            platforms: copy_strings(&self.platforms),
            rel_patch_path: self.rel_patch_path.clone(),
            version_range: self.version_range,
        }
    }
}

impl PatchDictSchema {
    /// The first version this patch applies to.
    pub fn get_from_version(&self) -> (r: Option<u64>)
        ensures
            r == range_from(self.version_range),
    {
        match self.version_range {
            Some(v) => v.from,
            None => None,
        }
    }

    /// The version after the last version this patch applies to.
    pub fn get_until_version(&self) -> (r: Option<u64>)
        ensures
            r == range_until(self.version_range),
    {
        match self.version_range {
            Some(v) => v.until,
            None => None,
        }
    }
}

/// Whether `v` holds a string equal to `s`.
pub(crate) fn contains_string(v: &Vec<String>, s: &str) -> (r: bool)
    ensures
        r == string_seq(v@).contains(s@),
{
    let key = s.to_owned();
    let mut i: usize = 0;
    while i < v.len()
        invariant
            0 <= i <= v.len(),
            key@ == s@,
            forall|j: int| 0 <= j < i ==> v@[j]@ != s@,
        decreases v.len() - i,
    {
        if v[i] == key {
            assert(string_seq(v@)[i as int] == s@);
            return true;
        }
        i += 1;
    }
    proof {
        if string_seq(v@).contains(s@) {
            let j = choose|j: int| 0 <= j < string_seq(v@).len() && string_seq(v@)[j] == s@;
            assert(v@[j]@ == s@);
        }
    }
    false
}

/// Whether every string of `a` is also in `b`.
fn strings_within(a: &Vec<String>, b: &Vec<String>) -> (r: bool)
    ensures
        r == string_seq(a@).to_set().subset_of(string_seq(b@).to_set()),
{
    let mut i: usize = 0;
    while i < a.len()
        invariant
            0 <= i <= a.len(),
            forall|j: int| 0 <= j < i ==> string_seq(b@).contains(#[trigger] a@[j]@),
        decreases a.len() - i,
    {
        if !contains_string(b, a[i].as_str()) {
            assert(string_seq(a@).to_set().contains(a@[i as int]@)) by {
                assert(string_seq(a@)[i as int] == a@[i as int]@);
            }
            return false;
        }
        i += 1;
    }
    assert forall|x: Seq<char>| string_seq(a@).to_set().contains(x) implies string_seq(
        b@,
    ).to_set().contains(x) by {
        let j = choose|j: int| 0 <= j < string_seq(a@).len() && string_seq(a@)[j] == x;
        assert(a@[j]@ == x);
    }
    true
}

fn same_pairs(a: &Vec<(String, String)>, b: &Vec<(String, String)>) -> (r: bool)
    ensures
        r == (pair_seq(a@) == pair_seq(b@)),
{
    if a.len() != b.len() {
        assert(pair_seq(a@).len() != pair_seq(b@).len());
        return false;
    }
    let mut i: usize = 0;
    while i < a.len()
        invariant
            a.len() == b.len(),
            0 <= i <= a.len(),
            forall|j: int| 0 <= j < i ==> pair_seq(a@)[j] == pair_seq(b@)[j],
        decreases a.len() - i,
    {
        if a[i].0 != b[i].0 || a[i].1 != b[i].1 {
            assert(pair_seq(a@)[i as int] != pair_seq(b@)[i as int]);
            return false;
        }
        i += 1;
    }
    assert(pair_seq(a@) =~= pair_seq(b@));
    true
}

fn same_range(a: Option<VersionRange>, b: Option<VersionRange>) -> (r: bool)
    ensures
        r == (a == b),
{
    match (a, b) {
        (Some(x), Some(y)) => x == y,
        (None, None) => true,
        _ => false,
    }
}

impl PartialEq for PatchDictSchema {
    fn eq(&self, other: &Self) -> (r: bool) {
        let same_meta = match (&self.metadata, &other.metadata) {
            (Some(x), Some(y)) => same_pairs(x, y),
            (None, None) => true,
            _ => false,
        };
        let same_tags = strings_within(&self.platforms, &other.platforms) && strings_within(
            &other.platforms,
            &self.platforms,
        );
        proof {
            if same_tags {
                assert(self@.platforms =~= other@.platforms);
            }
        }
        same_meta && same_tags && self.rel_patch_path == other.rel_patch_path && same_range(
            self.version_range,
            other.version_range,
        )
    }
}

impl vstd::std_specs::cmp::PartialEqSpecImpl for PatchDictSchema {
    open spec fn obeys_eq_spec() -> bool {
        true
    }

    open spec fn eq_spec(&self, other: &Self) -> bool {
        self@ == other@
    }
}

/// An ordered sequence of records together with the working directory that
/// their relative paths are resolved against.
#[derive(Debug)]
pub struct PatchCollection {
    pub patches: Vec<PatchDictSchema>,
    pub workdir: String,
}

/// The mathematical value of a [`PatchCollection`].
pub struct CatalogView {
    pub records: Seq<PatchSpec>,
    pub workdir: Seq<char>,
}

pub open spec fn records_of(v: Seq<PatchDictSchema>) -> Seq<PatchSpec> {
    v.map_values(|p: PatchDictSchema| p@)
}

impl View for PatchCollection {
    type V = CatalogView;

    open spec fn view(&self) -> CatalogView {
        CatalogView { records: records_of(self.patches@), workdir: self.workdir@ }
    }
}

/// The elements of `s` whose position is marked `true` in `keep`, in order.
pub open spec fn masked<A>(s: Seq<A>, keep: Seq<bool>) -> Seq<A>
    decreases s.len(),
{
    if s.len() == 0 {
        seq![]
    } else {
        let rest = masked(s.drop_last(), keep);
        if keep[s.len() - 1] {
            rest.push(s.last())
        } else {
            rest
        }
    }
}

pub proof fn lemma_masked_step<A>(s: Seq<A>, keep: Seq<bool>, i: int)
    requires
        0 <= i < s.len(),
    ensures
        masked(s.subrange(0, i + 1), keep) == if keep[i] {
            masked(s.subrange(0, i), keep).push(s[i])
        } else {
            masked(s.subrange(0, i), keep)
        },
{
    assert(s.subrange(0, i + 1).drop_last() =~= s.subrange(0, i));
}

pub proof fn lemma_records_push(v: Seq<PatchDictSchema>, p: PatchDictSchema)
    ensures
        records_of(v.push(p)) == records_of(v).push(p@),
{
    assert(records_of(v.push(p)) =~= records_of(v).push(p@));
}

/// The title shown for a record: the string value of its `title` metadata
/// entry, or `[No Title]`.
pub open spec fn title_of(m: Option<Seq<(Seq<char>, Seq<char>)>>) -> Seq<char> {
    match m {
        Some(entries) => match lookup(entries, title_key()) {
            Some(text) => match json_str_of(text) {
                Some(t) => t,
                None => no_title(),
            },
            None => no_title(),
        },
        None => no_title(),
    }
}

pub open spec fn title_key() -> Seq<char> {
    seq!['t', 'i', 't', 'l', 'e']
}

pub open spec fn no_title() -> Seq<char> {
    seq!['[', 'N', 'o', ' ', 'T', 'i', 't', 'l', 'e', ']']
}

/// The value of the first entry of `m` with key `k`.
pub open spec fn lookup(m: Seq<(Seq<char>, Seq<char>)>, k: Seq<char>) -> Option<Seq<char>>
    decreases m.len(),
{
    if m.len() == 0 {
        None
    } else if m[0].0 == k {
        Some(m[0].1)
    } else {
        lookup(m.drop_first(), k)
    }
}

/// The string that the JSON text `text` denotes, if it denotes a string.
pub uninterp spec fn json_str_of(text: Seq<char>) -> Option<Seq<char>>;

/// Relies on `serde_json::from_str::<String>`: `Some` of the decoded string
/// when `text` is a JSON string, `None` otherwise.
#[verifier::external_body]
fn json_str(text: &str) -> (r: Option<String>)
    ensures
        match r {
            Some(t) => json_str_of(text@) == Some(t@),
            None => json_str_of(text@) is None,
        },
{
    serde_json::from_str::<String>(text).ok()
}

/// Two lines per record: `* <title>` and two spaces before the record's
/// resolved path; no newline after the last line.
pub open spec fn display_of(records: Seq<PatchSpec>, workdir: Seq<char>) -> Seq<char>
    decreases records.len(),
{
    if records.len() == 0 {
        seq![]
    } else {
        let p = records.last();
        let head = display_of(records.drop_last(), workdir);
        let sep = if head.len() == 0 {
            seq![]
        } else {
            seq!['\n']
        };
        head + sep + seq!['*', ' '] + title_of(p.metadata) + seq!['\n', ' ', ' '] + path_join(
            workdir,
            p.rel_patch_path,
        )
    }
}

fn title(p: &PatchDictSchema) -> (r: String)
    ensures
        r@ == title_of(p@.metadata),
{
    proof {
        reveal_strlit("title");
        reveal_strlit("[No Title]");
    }
    let fallback = "[No Title]".to_owned();
    assert(fallback@ =~= no_title());
    match &p.metadata {
        None => fallback,
        Some(entries) => {
            let key = "title".to_owned();
            assert(key@ =~= title_key());
            let mut i: usize = 0;
            assert(pair_seq(entries@).subrange(0, entries@.len() as int) =~= pair_seq(entries@));
            while i < entries.len()
                invariant
                    0 <= i <= entries.len(),
                    key@ == title_key(),
                    fallback@ == no_title(),
                    p@.metadata == Some(pair_seq(entries@)),
                    lookup(pair_seq(entries@), title_key()) == lookup(
                        pair_seq(entries@).subrange(i as int, entries@.len() as int),
                        title_key(),
                    ),
                decreases entries.len() - i,
            {
                let ghost rest = pair_seq(entries@).subrange(i as int, entries@.len() as int);
                assert(rest.drop_first() =~= pair_seq(entries@).subrange(
                    i + 1,
                    entries@.len() as int,
                ));
                if entries[i].0 == key {
                    assert(rest[0] == (entries@[i as int].0@, entries@[i as int].1@));
                    return match json_str(entries[i].1.as_str()) {
                        Some(t) => t,
                        None => fallback,
                    };
                }
                i += 1;
            }
            fallback
        },
    }
}

impl Clone for PatchCollection {
    fn clone(&self) -> (r: Self)
        ensures
            r@ == self@,
    {
        let mut patches: Vec<PatchDictSchema> = Vec::new();
        let mut i: usize = 0;
        while i < self.patches.len()
            invariant
                0 <= i <= self.patches.len(),
                records_of(patches@) == records_of(self.patches@).subrange(0, i as int),
            decreases self.patches.len() - i,
        {
            let p = self.patches[i].clone();
            proof {
                lemma_records_push(patches@, p);
            }
            patches.push(p);
            i += 1;
            assert(records_of(patches@) =~= records_of(self.patches@).subrange(0, i as int));
        }
        assert(records_of(self.patches@).subrange(0, i as int) =~= records_of(self.patches@));
        PatchCollection { patches, workdir: self.workdir.clone() }
    }
}

impl PatchCollection {
    /// A copy of this collection keeping the records whose position is marked
    /// `true` in `keep`; order and working directory are kept.
    pub fn filter_patches(&self, keep: &Vec<bool>) -> (r: Self)
        requires
            keep.len() == self.patches.len(),
        ensures
            r@.records == masked(self@.records, keep@),
            r@.workdir == self@.workdir,
    {
        let mut patches: Vec<PatchDictSchema> = Vec::new();
        let mut i: usize = 0;
        while i < self.patches.len()
            invariant
                0 <= i <= self.patches.len() == keep.len(),
                records_of(patches@) == masked(self@.records.subrange(0, i as int), keep@),
            decreases self.patches.len() - i,
        {
            proof {
                lemma_masked_step(self@.records, keep@, i as int);
            }
            if keep[i] {
                let p = self.patches[i].clone();
                proof {
                    lemma_records_push(patches@, p);
                }
                patches.push(p);
            }
            i += 1;
        }
        assert(self@.records.subrange(0, i as int) =~= self@.records);
        PatchCollection { patches, workdir: self.workdir.clone() }
    }

    /// A copy of this collection with `f` applied to every record; order and
    /// working directory are kept.
    pub fn map_patches(&self, f: impl Fn(&PatchDictSchema) -> PatchDictSchema) -> (r: Self)
        requires
            forall|p: &PatchDictSchema| #[trigger] f.requires((p,)),
        ensures
            r.patches.len() == self.patches.len(),
            forall|i: int|
                0 <= i < self.patches.len() ==> f.ensures((&self.patches[i],), #[trigger] r.patches[i]),
            r@.workdir == self@.workdir,
    {
        let mut patches: Vec<PatchDictSchema> = Vec::new();
        let mut i: usize = 0;
        while i < self.patches.len()
            invariant
                0 <= i <= self.patches.len(),
                patches.len() == i,
                forall|p: &PatchDictSchema| #[trigger] f.requires((p,)),
                forall|j: int| 0 <= j < i ==> f.ensures((&self.patches[j],), #[trigger] patches[j]),
            decreases self.patches.len() - i,
        {
            let q = f(&self.patches[i]);
            patches.push(q);
            i += 1;
        }
        PatchCollection { patches, workdir: self.workdir.clone() }
    }

    /// Whether the collection tracks no patch.
    pub fn is_empty(&self) -> (r: bool)
        ensures
            r == (self@.records.len() == 0),
    {
        self.patches.len() == 0
    }

    /// Where the file of `patch` lives: its relative path resolved against
    /// this collection's working directory.
    pub fn patch_path(&self, patch: &PatchDictSchema) -> (r: String)
        ensures
            r@ == path_join(self@.workdir, patch@.rel_patch_path),
    {
        join_path(self.workdir.as_str(), patch.rel_patch_path.as_str())
    }

    /// A human-readable listing: for each record a line `* <title>` and a
    /// line with its resolved path.
    pub fn display(&self) -> (r: String)
        ensures
            r@ == display_of(self@.records, self@.workdir),
    {
        let mut out: Vec<char> = Vec::new();
        let mut i: usize = 0;
        while i < self.patches.len()
            invariant
                0 <= i <= self.patches.len(),
                out@ == display_of(self@.records.subrange(0, i as int), self@.workdir),
            decreases self.patches.len() - i,
        {
            let p = &self.patches[i];
            proof {
                reveal_strlit("\n");
                reveal_strlit("* ");
                reveal_strlit("\n  ");
                assert(self@.records.subrange(0, i + 1).drop_last() =~= self@.records.subrange(
                    0,
                    i as int,
                ));
                assert(display_of(seq![], self@.workdir).len() == 0);
            }
            if i > 0 {
                proof {
                    lemma_display_nonempty(self@.records.subrange(0, i as int), self@.workdir);
                }
                append_chars(&mut out, "\n");
            }
            append_chars(&mut out, "* ");
            let t = title(p);
            append_chars(&mut out, t.as_str());
            append_chars(&mut out, "\n  ");
            let path = self.patch_path(p);
            append_chars(&mut out, path.as_str());
            i += 1;
            assert(out@ =~= display_of(self@.records.subrange(0, i as int), self@.workdir));
        }
        assert(self@.records.subrange(0, i as int) =~= self@.records);
        string_of(out.as_slice())
    }
}

proof fn lemma_display_nonempty(records: Seq<PatchSpec>, workdir: Seq<char>)
    requires
        records.len() > 0,
    ensures
        display_of(records, workdir).len() > 0,
{
}

} // verus!
