//! The catalog algebra: subtraction and union by content identity, filtering
//! by platform, version-range reconciliation by relative path, and the
//! transpose of records from one catalog into another.
//!
//! Content identities are computed by the caller, one per record, with
//! [`crate::hash_from_patch`] on the record's file; the functions here take
//! them as arguments, aligned with the records they belong to.

use vstd::prelude::*;

use crate::catalog::{
    contains_string, copy_strings, lemma_masked_step, lemma_records_push, masked,
    range_from, range_until, records_of, string_seq, PatchCollection, PatchDictSchema, PatchSpec,
    VersionRange,
};
use crate::text::{join_path, path_join};

verus! {

/// Keeps position `i` of `ia` exactly when no identity of `ib` equals `ia[i]`.
pub open spec fn subtract_keep(ia: Seq<Seq<char>>, ib: Seq<Seq<char>>) -> Seq<bool> {
    Seq::new(ia.len(), |i: int| !ib.contains(ia[i]))
}

/// Keeps a record that is tagged with `platform`, or that is untagged and
/// whose file is present.
pub open spec fn platform_keep(records: Seq<PatchSpec>, platform: Seq<char>, present: Seq<bool>) -> Seq<
    bool,
> {
    Seq::new(
        records.len(),
        |i: int|
            records[i].platforms.contains(platform) || (records[i].platforms.is_empty()
                && present[i]),
    )
}

/// The position of the last record of `rb[0..n]` with relative path `path`, or -1.
pub open spec fn last_with_path(rb: Seq<PatchSpec>, path: Seq<char>, n: int) -> int
    decreases n,
{
    if n <= 0 {
        -1
    } else if rb[n - 1].rel_patch_path == path {
        n - 1
    } else {
        last_with_path(rb, path, n - 1)
    }
}

/// Whether two version ranges differ in their lower or in their upper bound.
pub open spec fn ranges_differ(a: Option<VersionRange>, b: Option<VersionRange>) -> bool {
    range_from(a) != range_from(b) || range_until(a) != range_until(b)
}

/// Keeps a record of `ra` whose relative path also names a record of `rb`
/// (the last such one) with a different version range.
pub open spec fn diff_keep(ra: Seq<PatchSpec>, rb: Seq<PatchSpec>) -> Seq<bool> {
    Seq::new(
        ra.len(),
        |i: int|
            {
                let j = last_with_path(rb, ra[i].rel_patch_path, rb.len() as int);
                j >= 0 && ranges_differ(ra[i].version_range, rb[j].version_range)
            },
    )
}

pub open spec fn range_entry(p: PatchSpec) -> (Seq<char>, Option<VersionRange>) {
    (p.rel_patch_path, p.version_range)
}

/// The version-range updates of `ra` against `rb`: the relative path and
/// version range of every kept record of `ra`, in order.
pub open spec fn range_diffs(ra: Seq<PatchSpec>, rb: Seq<PatchSpec>) -> Seq<
    (Seq<char>, Option<VersionRange>),
> {
    masked(ra, diff_keep(ra, rb)).map_values(|p: PatchSpec| range_entry(p))
}

pub open spec fn update_seq(u: Seq<(String, Option<VersionRange>)>) -> Seq<
    (Seq<char>, Option<VersionRange>),
> {
    u.map_values(|e: (String, Option<VersionRange>)| (e.0@, e.1))
}

/// The range paired with the first entry of `u` for `path`, if any.
pub open spec fn first_update(u: Seq<(Seq<char>, Option<VersionRange>)>, path: Seq<char>) -> Option<
    Option<VersionRange>,
>
    decreases u.len(),
{
    if u.len() == 0 {
        None
    } else if u[0].0 == path {
        Some(u[0].1)
    } else {
        first_update(u.drop_first(), path)
    }
}

pub open spec fn with_update(p: PatchSpec, u: Seq<(Seq<char>, Option<VersionRange>)>) -> PatchSpec {
    match first_update(u, p.rel_patch_path) {
        Some(r) => PatchSpec { version_range: r, ..p },
        None => p,
    }
}

/// `masked` keeps no element when no position is marked.
pub proof fn lemma_masked_none<A>(s: Seq<A>, keep: Seq<bool>)
    requires
        forall|i: int| 0 <= i < s.len() ==> !keep[i],
    ensures
        masked(s, keep).len() == 0,
    decreases s.len(),
{
    if s.len() > 0 {
        lemma_masked_none(s.drop_last(), keep);
    }
}

/// For any collection, subtracting it from itself leaves nothing: every record
/// shares its identity with itself.
pub proof fn lemma_subtract_self(records: Seq<PatchSpec>, ids: Seq<Seq<char>>)
    requires
        ids.len() == records.len(),
    ensures
        masked(records, subtract_keep(ids, ids)).len() == 0,
{
    assert forall|i: int| 0 <= i < records.len() implies !subtract_keep(ids, ids)[i] by {
        assert(ids[i] == ids[i]);
    }
    lemma_masked_none(records, subtract_keep(ids, ids));
}

/// A record with no platform tag passes the platform filter, for every
/// platform, exactly when its file is present.
pub proof fn lemma_untagged_follow_presence(
    records: Seq<PatchSpec>,
    platform: Seq<char>,
    present: Seq<bool>,
    i: int,
)
    requires
        0 <= i < records.len(),
        records[i].platforms.is_empty(),
    ensures
        platform_keep(records, platform, present)[i] == present[i],
{
}

proof fn lemma_masked_agree<A>(s: Seq<A>, k1: Seq<bool>, k2: Seq<bool>)
    requires
        forall|i: int| 0 <= i < s.len() ==> k1[i] == k2[i],
    ensures
        masked(s, k1) == masked(s, k2),
    decreases s.len(),
{
    if s.len() > 0 {
        lemma_masked_agree(s.drop_last(), k1, k2);
    }
}

/// How one more record `p` of the first collection changes the version-range
/// updates: none when no record of the second collection has its relative
/// path, none when the record that has it (the last one) has the same bounds,
/// and otherwise exactly one update, carrying `p`'s path and `p`'s range.
pub proof fn lemma_range_diffs_step(ra: Seq<PatchSpec>, rb: Seq<PatchSpec>, p: PatchSpec)
    ensures
        (forall|j: int| 0 <= j < rb.len() ==> rb[j].rel_patch_path != p.rel_patch_path)
            ==> range_diffs(ra.push(p), rb) == range_diffs(ra, rb),
        ({
            let j = last_with_path(rb, p.rel_patch_path, rb.len() as int);
            j >= 0 && !ranges_differ(p.version_range, rb[j].version_range)
        }) ==> range_diffs(ra.push(p), rb) == range_diffs(ra, rb),
        ({
            let j = last_with_path(rb, p.rel_patch_path, rb.len() as int);
            j >= 0 && ranges_differ(p.version_range, rb[j].version_range)
        }) ==> range_diffs(ra.push(p), rb) == range_diffs(ra, rb).push(
            (p.rel_patch_path, p.version_range),
        ),
{
    let s = ra.push(p);
    lemma_last_with_path(rb, p.rel_patch_path, rb.len() as int);
    assert(s.drop_last() =~= ra);
    assert forall|i: int| 0 <= i < ra.len() implies diff_keep(s, rb)[i] == diff_keep(ra, rb)[i] by {
        assert(s[i] == ra[i]);
    }
    lemma_masked_agree(ra, diff_keep(s, rb), diff_keep(ra, rb));
    let m = masked(ra, diff_keep(ra, rb));
    assert(m.push(p).map_values(|q: PatchSpec| range_entry(q)) =~= m.map_values(
        |q: PatchSpec| range_entry(q),
    ).push(range_entry(p)));
}

proof fn lemma_last_with_path(rb: Seq<PatchSpec>, path: Seq<char>, n: int)
    requires
        0 <= n <= rb.len(),
    ensures
        -1 <= last_with_path(rb, path, n) < n,
        last_with_path(rb, path, n) >= 0 ==> rb[last_with_path(rb, path, n)].rel_patch_path == path,
        last_with_path(rb, path, n) < 0 ==> forall|j: int|
            0 <= j < n ==> rb[j].rel_patch_path != path,
    decreases n,
{
    if n > 0 && rb[n - 1].rel_patch_path != path {
        lemma_last_with_path(rb, path, n - 1);
    }
}

fn platforms_empty(p: &PatchDictSchema) -> (r: bool)
    ensures
        r == p@.platforms.is_empty(),
{
    if p.platforms.len() == 0 {
        assert(string_seq(p.platforms@) =~= Seq::<Seq<char>>::empty());
        assert(p@.platforms =~= Set::<Seq<char>>::empty());
        true
    } else {
        assert(p@.platforms.contains(p.platforms@[0]@)) by {
            assert(string_seq(p.platforms@)[0] == p.platforms@[0]@);
        }
        false
    }
}

/// The first position at or after `j` of `ib` that is not in `used` and
/// holds `id`, or `ib.len()` when there is none.
pub open spec fn first_free(ib: Seq<Seq<char>>, used: Set<int>, id: Seq<char>, j: int) -> int
    decreases ib.len() - j,
{
    if j >= ib.len() {
        ib.len() as int
    } else if !used.contains(j) && ib[j] == id {
        j
    } else {
        first_free(ib, used, id, j + 1)
    }
}

/// The positions of `ib` consumed once the first `n` identities of `ia` have
/// each taken the leftmost unconsumed equal identity, if any.
pub open spec fn consumed(ia: Seq<Seq<char>>, ib: Seq<Seq<char>>, n: int) -> Set<int>
    decreases n,
{
    if n <= 0 {
        Set::empty()
    } else {
        let used = consumed(ia, ib, n - 1);
        let j = first_free(ib, used, ia[n - 1], 0);
        if j < ib.len() {
            used.insert(j)
        } else {
            used
        }
    }
}

/// The position of `ib` matched with position `i` of `ia`; `ib.len()` when none is.
pub open spec fn partner(ia: Seq<Seq<char>>, ib: Seq<Seq<char>>, i: int) -> int {
    first_free(ib, consumed(ia, ib, i), ia[i], 0)
}

/// The number of the first `n` positions of `ia` that found a match.
pub open spec fn match_count(ia: Seq<Seq<char>>, ib: Seq<Seq<char>>, n: int) -> int
    decreases n,
{
    if n <= 0 {
        0
    } else {
        match_count(ia, ib, n - 1) + if partner(ia, ib, n - 1) < ib.len() {
            1int
        } else {
            0int
        }
    }
}

/// `a` with the platform tags of `b` added.
pub open spec fn merged(a: PatchSpec, b: PatchSpec) -> PatchSpec {
    PatchSpec { platforms: a.platforms.union(b.platforms), ..a }
}

pub open spec fn unconsumed(ia: Seq<Seq<char>>, ib: Seq<Seq<char>>, n: int, len: nat) -> Seq<bool> {
    Seq::new(len, |j: int| !consumed(ia, ib, n).contains(j))
}

/// The union of `ra` (identities `ia`) and `rb` (identities `ib`): each
/// record of `ra`, merged with its partner in `rb` if it has one, followed
/// by the records of `rb` that no record of `ra` took, in order.
pub open spec fn union_of(ra: Seq<PatchSpec>, rb: Seq<PatchSpec>, ia: Seq<Seq<char>>, ib: Seq<Seq<char>>) -> Seq<
    PatchSpec,
> {
    Seq::new(
        ra.len(),
        |i: int|
            if partner(ia, ib, i) < ib.len() {
                merged(ra[i], rb[partner(ia, ib, i)])
            } else {
                ra[i]
            },
    ) + masked(rb, unconsumed(ia, ib, ra.len() as int, rb.len()))
}

pub open spec fn count_free(used: Set<int>, m: int) -> int
    decreases m,
{
    if m <= 0 {
        0
    } else {
        count_free(used, m - 1) + if used.contains(m - 1) {
            0int
        } else {
            1int
        }
    }
}

proof fn lemma_first_free(ib: Seq<Seq<char>>, used: Set<int>, id: Seq<char>, j: int)
    requires
        0 <= j <= ib.len(),
    ensures
        j <= first_free(ib, used, id, j) <= ib.len(),
        first_free(ib, used, id, j) < ib.len() ==> !used.contains(first_free(ib, used, id, j))
            && ib[first_free(ib, used, id, j)] == id,
    decreases ib.len() - j,
{
    if j < ib.len() && !(!used.contains(j) && ib[j] == id) {
        lemma_first_free(ib, used, id, j + 1);
    }
}

proof fn lemma_count_free_insert(used: Set<int>, j: int, m: int)
    requires
        !used.contains(j),
        0 <= j,
    ensures
        count_free(used.insert(j), m) == count_free(used, m) - if j < m {
            1int
        } else {
            0int
        },
    decreases m,
{
    if m > 0 {
        lemma_count_free_insert(used, j, m - 1);
    }
}

proof fn lemma_count_free_consumed(ia: Seq<Seq<char>>, ib: Seq<Seq<char>>, n: int)
    requires
        0 <= n <= ia.len(),
    ensures
        count_free(consumed(ia, ib, n), ib.len() as int) == ib.len() - match_count(ia, ib, n),
    decreases n,
{
    if n == 0 {
        lemma_count_free_empty(ib.len() as int);
    } else {
        lemma_count_free_consumed(ia, ib, n - 1);
        let used = consumed(ia, ib, n - 1);
        let j = first_free(ib, used, ia[n - 1], 0);
        lemma_first_free(ib, used, ia[n - 1], 0);
        if j < ib.len() {
            lemma_count_free_insert(used, j, ib.len() as int);
        }
    }
}

proof fn lemma_count_free_empty(m: int)
    requires
        0 <= m,
    ensures
        count_free(Set::empty(), m) == m,
    decreases m,
{
    if m > 0 {
        lemma_count_free_empty(m - 1);
    }
}

proof fn lemma_masked_free_len<A>(s: Seq<A>, used: Set<int>, len: nat)
    requires
        s.len() <= len,
    ensures
        masked(s, Seq::new(len, |j: int| !used.contains(j))).len() == count_free(
            used,
            s.len() as int,
        ),
    decreases s.len(),
{
    if s.len() > 0 {
        lemma_masked_free_len(s.drop_last(), used, len);
    }
}

/// The size of a union: every record of both sides, less one for each
/// match by identity; a matched record carries the platform tags of both.
pub proof fn lemma_union_size(
    ra: Seq<PatchSpec>,
    rb: Seq<PatchSpec>,
    ia: Seq<Seq<char>>,
    ib: Seq<Seq<char>>,
)
    requires
        ia.len() == ra.len(),
        ib.len() == rb.len(),
    ensures
        union_of(ra, rb, ia, ib).len() == ra.len() + rb.len() - match_count(
            ia,
            ib,
            ra.len() as int,
        ),
        forall|i: int|
            0 <= i < ra.len() && #[trigger] partner(ia, ib, i) < ib.len() ==> union_of(
                ra,
                rb,
                ia,
                ib,
            )[i].platforms == ra[i].platforms.union(rb[partner(ia, ib, i)].platforms),
{
    lemma_masked_free_len(rb, consumed(ia, ib, ra.len() as int), rb.len());
    lemma_count_free_consumed(ia, ib, ra.len() as int);
}

proof fn lemma_push_to_set(s: Seq<Seq<char>>, x: Seq<char>)
    ensures
        s.push(x).to_set() == s.to_set().insert(x),
{
    assert forall|y: Seq<char>| s.push(x).to_set().contains(y) implies s.to_set().insert(
        x,
    ).contains(y) by {
        let k = choose|k: int| 0 <= k < s.push(x).len() && s.push(x)[k] == y;
        if k < s.len() {
            assert(s[k] == y);
        }
    }
    assert forall|y: Seq<char>| s.to_set().insert(x).contains(y) implies s.push(
        x,
    ).to_set().contains(y) by {
        if y == x {
            assert(s.push(x)[s.len() as int] == x);
        } else {
            let k = choose|k: int| 0 <= k < s.len() && s[k] == y;
            assert(s.push(x)[k] == y);
        }
    }
    assert(s.push(x).to_set() =~= s.to_set().insert(x));
}

/// The tags of `a` followed by those of `b` that `a` lacks.
fn union_tags(a: &Vec<String>, b: &Vec<String>) -> (r: Vec<String>)
    ensures
        string_seq(r@).to_set() == string_seq(a@).to_set().union(string_seq(b@).to_set()),
{
    let mut out = copy_strings(a);
    let mut k: usize = 0;
    assert(string_seq(b@).subrange(0, 0).to_set() =~= Set::<Seq<char>>::empty());
    assert(string_seq(a@).to_set().union(Set::empty()) =~= string_seq(a@).to_set());
    while k < b.len()
        invariant
            0 <= k <= b.len(),
            string_seq(out@).to_set() == string_seq(a@).to_set().union(
                string_seq(b@).subrange(0, k as int).to_set(),
            ),
        decreases b.len() - k,
    {
        let ghost before = out@;
        proof {
            assert(string_seq(b@).subrange(0, k + 1) =~= string_seq(b@).subrange(0, k as int).push(
                b@[k as int]@,
            ));
            lemma_push_to_set(string_seq(b@).subrange(0, k as int), b@[k as int]@);
        }
        if !contains_string(&out, b[k].as_str()) {
            out.push(b[k].clone());
            proof {
                assert(string_seq(out@) =~= string_seq(before).push(b@[k as int]@));
                lemma_push_to_set(string_seq(before), b@[k as int]@);
            }
        }
        k += 1;
        assert(string_seq(out@).to_set() =~= string_seq(a@).to_set().union(
            string_seq(b@).subrange(0, k as int).to_set(),
        ));
    }
    assert(string_seq(b@).subrange(0, k as int) =~= string_seq(b@));
    out
}

impl PatchCollection {
    /// The union of this collection and `other` by identity (see
    /// [`union_of`]), under this collection's working directory. Each record
    /// of this collection takes the leftmost not yet taken record of `other`
    /// with the same identity; the pair becomes one record with this side's
    /// path, metadata and version range and the platform tags of both.
    /// `our_ids[i]` is the identity of `self.patches[i]`, `their_ids[j]` that
    /// of `other.patches[j]`.
    pub fn union(&self, other: &Self, our_ids: &Vec<String>, their_ids: &Vec<String>) -> (r: Self)
        requires
            our_ids.len() == self.patches.len(),
            their_ids.len() == other.patches.len(),
        ensures
            r@.records == union_of(
                self@.records,
                other@.records,
                string_seq(our_ids@),
                string_seq(their_ids@),
            ),
            r@.workdir == self@.workdir,
    {
        let ghost ra = self@.records;
        let ghost rb = other@.records;
        let ghost ia = string_seq(our_ids@);
        let ghost ib = string_seq(their_ids@);
        let nb = other.patches.len();
        let mut used: Vec<bool> = Vec::new();
        let mut j: usize = 0;
        while j < nb
            invariant
                0 <= j <= nb == ib.len(),
                used@ == Seq::new(j as nat, |k: int| consumed(ia, ib, 0).contains(k)),
            decreases nb - j,
        {
            used.push(false);
            j += 1;
            assert(used@ =~= Seq::new(j as nat, |k: int| consumed(ia, ib, 0).contains(k)));
        }
        let ghost head = Seq::new(
            ra.len(),
            |i: int|
                if partner(ia, ib, i) < ib.len() {
                    merged(ra[i], rb[partner(ia, ib, i)])
                } else {
                    ra[i]
                },
        );
        let mut combined: Vec<PatchDictSchema> = Vec::new();
        let mut i: usize = 0;
        while i < self.patches.len()
            invariant
                0 <= i <= self.patches.len() == our_ids.len() == ra.len() == ia.len(),
                nb == other.patches.len() == their_ids.len() == rb.len() == ib.len(),
                ra == self@.records,
                rb == other@.records,
                ia == string_seq(our_ids@),
                ib == string_seq(their_ids@),
                head.len() == ra.len(),
                forall|k: int| 0 <= k < ra.len() ==> #[trigger] head[k] == if partner(ia, ib, k) < ib.len() {
                    merged(ra[k], rb[partner(ia, ib, k)])
                } else {
                    ra[k]
                },
                used@ == Seq::new(nb as nat, |k: int| consumed(ia, ib, i as int).contains(k)),
                records_of(combined@) == head.subrange(0, i as int),
            decreases self.patches.len() - i,
        {
            let p = &self.patches[i];
            let ghost c = consumed(ia, ib, i as int);
            let mut j: usize = 0;
            while j < nb && (used[j] || their_ids[j] != our_ids[i])
                invariant
                    0 <= j <= nb == their_ids.len() == ib.len(),
                    i < our_ids.len() == ia.len(),
                    ia == string_seq(our_ids@),
                    ib == string_seq(their_ids@),
                    used@ == Seq::new(nb as nat, |k: int| c.contains(k)),
                    first_free(ib, c, ia[i as int], j as int) == first_free(ib, c, ia[i as int], 0),
                decreases nb - j,
            {
                j += 1;
            }
            proof {
                lemma_first_free(ib, c, ia[i as int], 0);
                assert(partner(ia, ib, i as int) == j);
            }
            let ghost before = combined@;
            if j < nb {
                let other_p = &other.patches[j];
                let mut q = p.clone();
                q.platforms = union_tags(&p.platforms, &other_p.platforms);
                assert(q@ == merged(ra[i as int], rb[j as int]));
                proof {
                    lemma_records_push(combined@, q);
                }
                combined.push(q);
                used.set(j, true);
                assert(used@ =~= Seq::new(
                    nb as nat,
                    |k: int| consumed(ia, ib, i + 1).contains(k),
                ));
            } else {
                let q = p.clone();
                proof {
                    lemma_records_push(combined@, q);
                }
                combined.push(q);
                assert(used@ =~= Seq::new(
                    nb as nat,
                    |k: int| consumed(ia, ib, i + 1).contains(k),
                ));
            }
            assert(head[i as int] == records_of(combined@).last());
            i += 1;
            assert(records_of(combined@) =~= head.subrange(0, i as int));
        }
        assert(head.subrange(0, i as int) =~= head);
        let ghost free = unconsumed(ia, ib, ra.len() as int, rb.len());
        let mut j: usize = 0;
        while j < nb
            invariant
                0 <= j <= nb == other.patches.len() == rb.len(),
                rb == other@.records,
                free.len() == nb,
                forall|k: int| 0 <= k < nb ==> free[k] == !used@[k],
                used@.len() == nb,
                records_of(combined@) == head + masked(rb.subrange(0, j as int), free),
            decreases nb - j,
        {
            proof {
                lemma_masked_step(rb, free, j as int);
            }
            if !used[j] {
                let q = other.patches[j].clone();
                proof {
                    lemma_records_push(combined@, q);
                }
                combined.push(q);
            }
            j += 1;
            assert(records_of(combined@) =~= head + masked(rb.subrange(0, j as int), free));
        }
        assert(rb.subrange(0, j as int) =~= rb);
        PatchCollection { patches: combined, workdir: self.workdir.clone() }
    }

    /// The records of this collection whose identity equals no identity of
    /// `subtrahend`, in order, under this collection's working directory.
    /// `our_ids[i]` is the identity of `self.patches[i]`, `their_ids[j]` that
    /// of `subtrahend.patches[j]`.
    pub fn subtract(&self, subtrahend: &Self, our_ids: &Vec<String>, their_ids: &Vec<String>) -> (r:
        Self)
        requires
            our_ids.len() == self.patches.len(),
            their_ids.len() == subtrahend.patches.len(),
        ensures
            r@.records == masked(
                self@.records,
                subtract_keep(string_seq(our_ids@), string_seq(their_ids@)),
            ),
            r@.workdir == self@.workdir,
    {
        let mut keep: Vec<bool> = Vec::new();
        let mut i: usize = 0;
        while i < our_ids.len()
            invariant
                0 <= i <= our_ids.len(),
                keep@ == subtract_keep(string_seq(our_ids@), string_seq(their_ids@)).subrange(
                    0,
                    i as int,
                ),
            decreases our_ids.len() - i,
        {
            let found = contains_string(their_ids, our_ids[i].as_str());
            keep.push(!found);
            i += 1;
            assert(keep@ =~= subtract_keep(string_seq(our_ids@), string_seq(their_ids@)).subrange(
                0,
                i as int,
            ));
        }
        assert(keep@ =~= subtract_keep(string_seq(our_ids@), string_seq(their_ids@)));
        self.filter_patches(&keep)
    }

    /// For every record of this collection whose relative path also names a
    /// record of `other` (the last such one) with a different lower or upper
    /// bound: its relative path and its own version range, in order.
    pub fn version_range_diffs(&self, other: &Self) -> (r: Vec<(String, Option<VersionRange>)>)
        ensures
            update_seq(r@) == range_diffs(self@.records, other@.records),
    {
        let ghost ra = self@.records;
        let ghost rb = other@.records;
        let mut out: Vec<(String, Option<VersionRange>)> = Vec::new();
        let mut i: usize = 0;
        while i < self.patches.len()
            invariant
                0 <= i <= self.patches.len(),
                ra == self@.records,
                rb == other@.records,
                update_seq(out@) == masked(ra.subrange(0, i as int), diff_keep(ra, rb)).map_values(
                    |p: PatchSpec| range_entry(p),
                ),
            decreases self.patches.len() - i,
        {
            let ours = &self.patches[i];
            let mut j = other.patches.len();
            while j > 0 && other.patches[j - 1].rel_patch_path != ours.rel_patch_path
                invariant
                    0 <= j <= other.patches.len(),
                    i < self.patches.len(),
                    ra == self@.records,
                    rb == other@.records,
                    ours == self.patches[i as int],
                    last_with_path(rb, ra[i as int].rel_patch_path, j as int) == last_with_path(
                        rb,
                        ra[i as int].rel_patch_path,
                        rb.len() as int,
                    ),
                decreases j,
            {
                j -= 1;
            }
            proof {
                lemma_masked_step(ra, diff_keep(ra, rb), i as int);
            }
            if j > 0 {
                let theirs = &other.patches[j - 1];
                if ours.get_from_version() != theirs.get_from_version()
                    || ours.get_until_version() != theirs.get_until_version() {
                    let ghost before = out@;
                    out.push((ours.rel_patch_path.clone(), ours.version_range));
                    assert(update_seq(out@) =~= update_seq(before).push(range_entry(ra[i as int])));
                }
            }
            i += 1;
        }
        assert(ra.subrange(0, i as int) =~= ra);
        out
    }

    /// This collection with the version range of every record whose relative
    /// path appears in `new_versions` replaced by the range paired with its
    /// first appearance there (possibly none); other records are unchanged.
    pub fn update_version_ranges(&self, new_versions: &[(String, Option<VersionRange>)]) -> (r:
        Self)
        ensures
            r@.records == self@.records.map_values(
                |p: PatchSpec| with_update(p, update_seq(new_versions@)),
            ),
            r@.workdir == self@.workdir,
    {
        let ghost u = update_seq(new_versions@);
        let mut patches: Vec<PatchDictSchema> = Vec::new();
        let mut i: usize = 0;
        while i < self.patches.len()
            invariant
                0 <= i <= self.patches.len(),
                u == update_seq(new_versions@),
                records_of(patches@) == self@.records.subrange(0, i as int).map_values(
                    |p: PatchSpec| with_update(p, u),
                ),
            decreases self.patches.len() - i,
        {
            let p = &self.patches[i];
            let mut k: usize = 0;
            assert(u.subrange(0, u.len() as int) =~= u);
            while k < new_versions.len() && new_versions[k].0 != p.rel_patch_path
                invariant
                    0 <= k <= new_versions.len(),
                    u == update_seq(new_versions@),
                    first_update(u, p@.rel_patch_path) == first_update(
                        u.subrange(k as int, u.len() as int),
                        p@.rel_patch_path,
                    ),
                decreases new_versions.len() - k,
            {
                assert(u.subrange(k as int, u.len() as int).drop_first() =~= u.subrange(
                    k + 1,
                    u.len() as int,
                ));
                k += 1;
            }
            let mut q = p.clone();
            if k < new_versions.len() {
                q.version_range = new_versions[k].1;
            } else {
                assert(u.subrange(k as int, u.len() as int).len() == 0);
            }
            assert(q@ == with_update(p@, u));
            proof {
                lemma_records_push(patches@, q);
            }
            patches.push(q);
            i += 1;
            assert(records_of(patches@) =~= self@.records.subrange(0, i as int).map_values(
                |p: PatchSpec| with_update(p, u),
            ));
        }
        assert(self@.records.subrange(0, i as int) =~= self@.records);
        PatchCollection { patches, workdir: self.workdir.clone() }
    }

    /// Appends every record of this collection, unchanged and in order, to
    /// `existing`, and returns the file copies that must accompany them: for
    /// each record, its file under this collection's working directory and
    /// the same relative path under `existing`'s.
    pub fn transpose_write(&self, existing: &mut Self) -> (r: Vec<(String, String)>)
        ensures
            final(existing)@.records == old(existing)@.records + self@.records,
            final(existing)@.records.len() == old(existing)@.records.len() + self@.records.len(),
            final(existing)@.workdir == old(existing)@.workdir,
            r.len() == self.patches.len(),
            forall|i: int|
                0 <= i < r.len() ==> (#[trigger] r[i]).0@ == path_join(
                    self@.workdir,
                    self@.records[i].rel_patch_path,
                ) && r[i].1@ == path_join(old(existing)@.workdir, self@.records[i].rel_patch_path),
    {
        let ghost start = existing@.records;
        let mut copies: Vec<(String, String)> = Vec::new();
        let mut i: usize = 0;
        while i < self.patches.len()
            invariant
                0 <= i <= self.patches.len(),
                existing@.workdir == old(existing)@.workdir,
                start == old(existing)@.records,
                existing@.records == start + self@.records.subrange(0, i as int),
                copies.len() == i,
                forall|k: int|
                    0 <= k < i ==> (#[trigger] copies[k]).0@ == path_join(
                        self@.workdir,
                        self@.records[k].rel_patch_path,
                    ) && copies[k].1@ == path_join(
                        old(existing)@.workdir,
                        self@.records[k].rel_patch_path,
                    ),
            decreases self.patches.len() - i,
        {
            let p = &self.patches[i];
            let from = join_path(self.workdir.as_str(), p.rel_patch_path.as_str());
            let to = join_path(existing.workdir.as_str(), p.rel_patch_path.as_str());
            copies.push((from, to));
            let q = p.clone();
            proof {
                lemma_records_push(existing.patches@, q);
            }
            existing.patches.push(q);
            i += 1;
            assert(existing@.records =~= start + self@.records.subrange(0, i as int));
        }
        assert(self@.records.subrange(0, i as int) =~= self@.records);
        copies
    }
}

fn platform_mask(collection: &PatchCollection, platform: &str, present: &Vec<bool>) -> (r: Vec<
    bool,
>)
    requires
        present.len() == collection.patches.len(),
    ensures
        r@ == platform_keep(collection@.records, platform@, present@),
{
    let ghost ra = collection@.records;
    let mut keep: Vec<bool> = Vec::new();
    let mut i: usize = 0;
    while i < collection.patches.len()
        invariant
            0 <= i <= collection.patches.len() == present.len(),
            ra == collection@.records,
            keep@ == platform_keep(ra, platform@, present@).subrange(0, i as int),
        decreases collection.patches.len() - i,
    {
        let p = &collection.patches[i];
        let tagged = contains_string(&p.platforms, platform);
        let k = tagged || (platforms_empty(p) && present[i]);
        keep.push(k);
        i += 1;
        assert(keep@ =~= platform_keep(ra, platform@, present@).subrange(0, i as int));
    }
    assert(keep@ =~= platform_keep(ra, platform@, present@));
    keep
}

/// The records of `collection` that apply to `platform`: those tagged with
/// it, and the untagged ones whose file is present. `present[i]` says whether
/// the file of `collection.patches[i]` exists.
pub fn filter_patches_by_platform(collection: &PatchCollection, platform: &str, present: &Vec<bool>) -> (r:
    PatchCollection)
    requires
        present.len() == collection.patches.len(),
    ensures
        r@.records == masked(collection@.records, platform_keep(collection@.records, platform@, present@)),
        r@.workdir == collection@.workdir,
{
    let keep = platform_mask(collection, platform, present);
    collection.filter_patches(&keep)
}

/// Keeps a record tagged with `tag`.
pub open spec fn tag_keep(records: Seq<PatchSpec>, tag: Seq<char>) -> Seq<bool> {
    Seq::new(records.len(), |i: int| records[i].platforms.contains(tag))
}

/// The records of `collection` tagged with `tag`, in order.
pub fn filter_patches_by_tag(collection: &PatchCollection, tag: &str) -> (r: PatchCollection)
    ensures
        r@.records == masked(collection@.records, tag_keep(collection@.records, tag@)),
        r@.workdir == collection@.workdir,
{
    let ghost ra = collection@.records;
    let mut keep: Vec<bool> = Vec::new();
    let mut i: usize = 0;
    while i < collection.patches.len()
        invariant
            0 <= i <= collection.patches.len(),
            ra == collection@.records,
            keep@ == tag_keep(ra, tag@).subrange(0, i as int),
        decreases collection.patches.len() - i,
    {
        keep.push(contains_string(&collection.patches[i].platforms, tag));
        i += 1;
        assert(keep@ =~= tag_keep(ra, tag@).subrange(0, i as int));
    }
    assert(keep@ =~= tag_keep(ra, tag@));
    collection.filter_patches(&keep)
}

/// What changed in a catalog since an earlier version of it.
pub struct PatchTemporalDiff {
    /// The current catalog, restricted to the platform and to present files.
    pub cur_collection: PatchCollection,
    /// Its records whose identity the earlier version lacks, tagged for both distributions.
    pub new_patches: PatchCollection,
    /// The version-range updates of the current catalog against the earlier one.
    pub version_updates: Vec<(String, Option<VersionRange>)>,
}

pub open spec fn opt_seq(v: Seq<Option<String>>) -> Seq<Option<Seq<char>>> {
    v.map_values(
        |o: Option<String>|
            match o {
                Some(s) => Some(s@),
                None => None,
            },
    )
}

/// Whether each file is present: a present file is one whose identity is known.
pub open spec fn present_of(ids: Seq<Option<Seq<char>>>) -> Seq<bool> {
    Seq::new(ids.len(), |i: int| ids[i] is Some)
}

pub open spec fn id_or_empty(o: Option<Seq<char>>) -> Seq<char> {
    match o {
        Some(s) => s,
        None => seq![],
    }
}

/// The identities at the positions that `keep` marks.
pub open spec fn known(ids: Seq<Option<Seq<char>>>, keep: Seq<bool>) -> Seq<Seq<char>> {
    masked(ids, keep).map_values(|o: Option<Seq<char>>| id_or_empty(o))
}

/// Keeps a record of the current catalog that applies to `platform` and
/// whose file is present.
pub open spec fn current_keep(records: Seq<PatchSpec>, platform: Seq<char>, ids: Seq<Option<Seq<char>>>) -> Seq<
    bool,
> {
    Seq::new(
        records.len(),
        |i: int| ids[i] is Some && platform_keep(records, platform, present_of(ids))[i],
    )
}

pub open spec fn android_tag() -> Seq<char> {
    seq!['a', 'n', 'd', 'r', 'o', 'i', 'd']
}

pub open spec fn chromiumos_tag() -> Seq<char> {
    seq!['c', 'h', 'r', 'o', 'm', 'i', 'u', 'm', 'o', 's']
}

/// `p` tagged as applying to both distributions.
pub open spec fn tagged_both(p: PatchSpec) -> PatchSpec {
    PatchSpec { platforms: p.platforms.insert(android_tag()).insert(chromiumos_tag()), ..p }
}

fn add_tag(tags: &mut Vec<String>, tag: &str)
    ensures
        string_seq(final(tags)@).to_set() == string_seq(old(tags)@).to_set().insert(tag@),
{
    if contains_string(tags, tag) {
        assert(string_seq(old(tags)@).to_set().insert(tag@) =~= string_seq(old(tags)@).to_set());
    } else {
        let t = tag.to_owned();
        tags.push(t);
        proof {
            assert(string_seq(final(tags)@) =~= string_seq(old(tags)@).push(tag@));
            lemma_push_to_set(string_seq(old(tags)@), tag@);
        }
    }
}

fn tag_both(p: &PatchDictSchema) -> (r: PatchDictSchema)
    ensures
        r@ == tagged_both(p@),
{
    proof {
        reveal_strlit("android");
        reveal_strlit("chromiumos");
    }
    let mut q = p.clone();
    add_tag(&mut q.platforms, "android");
    add_tag(&mut q.platforms, "chromiumos");
    assert("android"@ =~= android_tag());
    assert("chromiumos"@ =~= chromiumos_tag());
    q
}

/// The identities at the positions that `keep` marks, in order.
fn known_ids(ids: &Vec<Option<String>>, keep: &Vec<bool>) -> (r: Vec<String>)
    requires
        keep.len() == ids.len(),
    ensures
        string_seq(r@) == known(opt_seq(ids@), keep@),
{
    let ghost o = opt_seq(ids@);
    let mut out: Vec<String> = Vec::new();
    let mut i: usize = 0;
    while i < ids.len()
        invariant
            0 <= i <= ids.len() == keep.len(),
            o == opt_seq(ids@),
            string_seq(out@) == masked(o.subrange(0, i as int), keep@).map_values(
                |x: Option<Seq<char>>| id_or_empty(x),
            ),
        decreases ids.len() - i,
    {
        proof {
            lemma_masked_step(o, keep@, i as int);
        }
        if keep[i] {
            let ghost before = out@;
            let s = match &ids[i] {
                Some(s) => s.clone(),
                None => String::new(),
            };
            out.push(s);
            assert(string_seq(out@) =~= string_seq(before).push(id_or_empty(o[i as int])));
        }
        i += 1;
        assert(string_seq(out@) =~= masked(o.subrange(0, i as int), keep@).map_values(
            |x: Option<Seq<char>>| id_or_empty(x),
        ));
    }
    assert(o.subrange(0, i as int) =~= o);
    out
}

fn presence(ids: &Vec<Option<String>>) -> (r: Vec<bool>)
    ensures
        r@ == present_of(opt_seq(ids@)),
{
    let mut out: Vec<bool> = Vec::new();
    let mut i: usize = 0;
    while i < ids.len()
        invariant
            0 <= i <= ids.len(),
            out@ == present_of(opt_seq(ids@)).subrange(0, i as int),
        decreases ids.len() - i,
    {
        out.push(ids[i].is_some());
        i += 1;
        assert(out@ =~= present_of(opt_seq(ids@)).subrange(0, i as int));
    }
    assert(out@ =~= present_of(opt_seq(ids@)));
    out
}

/// The current catalog restricted to `platform` and to present files.
pub open spec fn current_records(records: Seq<PatchSpec>, platform: Seq<char>, ids: Seq<Option<Seq<char>>>) -> Seq<
    PatchSpec,
> {
    masked(records, current_keep(records, platform, ids))
}

/// What is new in the current catalog `cur` against its earlier version `old`
/// for `platform`. `cur_ids[i]` is the identity of the file of
/// `cur.patches[i]`, or `None` when that file is absent; `old_ids` likewise
/// for `old`, whose records are resolved against the current files.
///
/// The current catalog is restricted to the records that apply to `platform`
/// and whose file is present, the earlier one to the records whose file is
/// present. The result holds the restricted current catalog, its
/// version-range updates against the restricted earlier one, and its records
/// whose identity the restricted earlier one lacks, each tagged for both
/// distributions.
pub fn new_patches(
    cur: &PatchCollection,
    cur_ids: &Vec<Option<String>>,
    old: &PatchCollection,
    old_ids: &Vec<Option<String>>,
    platform: &str,
) -> (r: PatchTemporalDiff)
    requires
        cur_ids.len() == cur.patches.len(),
        old_ids.len() == old.patches.len(),
    ensures
        r.cur_collection@.records == current_records(cur@.records, platform@, opt_seq(cur_ids@)),
        r.cur_collection@.workdir == cur@.workdir,
        update_seq(r.version_updates@) == range_diffs(
            current_records(cur@.records, platform@, opt_seq(cur_ids@)),
            masked(old@.records, present_of(opt_seq(old_ids@))),
        ),
        r.new_patches@.records == masked(
            current_records(cur@.records, platform@, opt_seq(cur_ids@)),
            subtract_keep(
                known(
                    opt_seq(cur_ids@),
                    current_keep(cur@.records, platform@, opt_seq(cur_ids@)),
                ),
                known(opt_seq(old_ids@), present_of(opt_seq(old_ids@))),
            ),
        ).map_values(|p: PatchSpec| tagged_both(p)),
        r.new_patches@.workdir == cur@.workdir,
{
    let cur_present = presence(cur_ids);
    let by_platform = platform_mask(cur, platform, &cur_present);
    let mut keep: Vec<bool> = Vec::new();
    let mut i: usize = 0;
    while i < cur_ids.len()
        invariant
            0 <= i <= cur_ids.len() == cur.patches.len() == by_platform.len() == cur_present.len(),
            cur_present@ == present_of(opt_seq(cur_ids@)),
            by_platform@ == platform_keep(cur@.records, platform@, cur_present@),
            keep@ == current_keep(cur@.records, platform@, opt_seq(cur_ids@)).subrange(0, i as int),
        decreases cur_ids.len() - i,
    {
        keep.push(cur_present[i] && by_platform[i]);
        i += 1;
        assert(keep@ =~= current_keep(cur@.records, platform@, opt_seq(cur_ids@)).subrange(
            0,
            i as int,
        ));
    }
    assert(keep@ =~= current_keep(cur@.records, platform@, opt_seq(cur_ids@)));
    let cur_collection = cur.filter_patches(&keep);
    let cur_known = known_ids(cur_ids, &keep);
    let old_present = presence(old_ids);
    let old_collection = old.filter_patches(&old_present);
    let old_known = known_ids(old_ids, &old_present);
    proof {
        assert(cur_known.len() == cur_collection.patches.len()) by {
            assert(string_seq(cur_known@).len() == cur_known@.len());
            lemma_masked_len_same(opt_seq(cur_ids@), cur@.records, keep@);
        }
        assert(old_known.len() == old_collection.patches.len()) by {
            assert(string_seq(old_known@).len() == old_known@.len());
            lemma_masked_len_same(opt_seq(old_ids@), old@.records, old_present@);
        }
    }
    let version_updates = cur_collection.version_range_diffs(&old_collection);
    let fresh = cur_collection.subtract(&old_collection, &cur_known, &old_known);
    let tag = |p: &PatchDictSchema| -> (q: PatchDictSchema)
        ensures
            q@ == tagged_both(p@),
        { tag_both(p) };
    let new_patches = fresh.map_patches(tag);
    assert(new_patches@.records =~= fresh@.records.map_values(|p: PatchSpec| tagged_both(p)));
    PatchTemporalDiff { cur_collection, new_patches, version_updates }
}

/// Masking two sequences of one length by one mask gives results of one length.
proof fn lemma_masked_len_same<A, B>(a: Seq<A>, b: Seq<B>, keep: Seq<bool>)
    requires
        a.len() == b.len(),
    ensures
        masked(a, keep).len() == masked(b, keep).len(),
    decreases a.len(),
{
    if a.len() > 0 {
        lemma_masked_len_same(a.drop_last(), b.drop_last(), keep);
    }
}

} // verus!
