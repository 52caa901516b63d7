use patch_sync::{
    filter_patches_by_platform, hash_from_patch, join_path, new_patches, terminate_json,
    PatchCollection, PatchDictSchema, VersionRange,
};

fn strings(v: &[&str]) -> Vec<String> {
    v.iter().map(|s| s.to_string()).collect()
}

fn record(path: &str, platforms: &[&str], range: Option<VersionRange>) -> PatchDictSchema {
    PatchDictSchema {
        rel_patch_path: path.to_string(),
        metadata: None,
        platforms: strings(platforms),
        version_range: range,
    }
}

fn range(from: u64, until: u64) -> Option<VersionRange> {
    Some(VersionRange {
        from: Some(from),
        until: Some(until),
    })
}

fn collection(workdir: &str, patches: Vec<PatchDictSchema>) -> PatchCollection {
    PatchCollection {
        patches,
        workdir: workdir.to_string(),
    }
}

fn paths(c: &PatchCollection) -> Vec<String> {
    c.patches.iter().map(|p| p.rel_patch_path.clone()).collect()
}

fn sorted(v: &[String]) -> Vec<String> {
    let mut v = v.to_vec();
    v.sort();
    v
}

#[test]
fn subtract_of_itself_is_empty() {
    let c = collection(
        "/w",
        vec![
            record("a", &["x"], range(0, 1)),
            record("b", &[], None),
            record("c", &["y"], None),
        ],
    );
    let ids = strings(&["h1", "h2", "h1"]);
    let r = c.subtract(&c, &ids, &ids);
    assert!(r.is_empty());
    assert_eq!(r.workdir, "/w");
}

#[test]
fn subtract_keeps_order_and_minuend_workdir() {
    let a = collection(
        "/a",
        vec![record("p", &[], None), record("q", &[], None), record("r", &[], None)],
    );
    let b = collection("/b", vec![record("other", &[], None)]);
    let r = a.subtract(&b, &strings(&["1", "2", "3"]), &strings(&["2"]));
    assert_eq!(paths(&r), vec!["p", "r"]);
    assert_eq!(r.workdir, "/a");
}

#[test]
fn union_size_counts_each_match_once() {
    let a = collection(
        "/a",
        vec![
            record("a", &["x"], range(0, 1)),
            record("b", &["x"], None),
            record("c", &["y"], None),
        ],
    );
    let b = collection(
        "/b",
        vec![
            record("d", &["z"], None),
            record("e", &["w"], None),
            record("f", &["v"], None),
        ],
    );
    // "a" and "c" share an identity; "d" and "e" both carry it.
    let r = a.union(&b, &strings(&["1", "2", "1"]), &strings(&["1", "1", "4"]));
    assert_eq!(r.patches.len(), 3 + 3 - 2);
    assert_eq!(paths(&r), vec!["a", "b", "c", "f"]);
    assert_eq!(sorted(&r.patches[0].platforms), vec!["x", "z"]);
    assert_eq!(r.patches[0].version_range, range(0, 1));
    assert_eq!(sorted(&r.patches[1].platforms), vec!["x"]);
    assert_eq!(sorted(&r.patches[2].platforms), vec!["w", "y"]);
    assert_eq!(r.workdir, "/a");
}

#[test]
fn union_merges_content_identical_patches() {
    let collection1 = collection(
        "",
        vec![record("a", &["x"], range(0, 1)), record("b", &["x", "y"], range(0, 1))],
    );
    let collection2 = collection("", vec![record("c", &["z", "x"], range(0, 1))]);
    let contents_a = "hand-written patch\n--- a/f\n+++ b/f\n";
    let contents_b = "another patch\n";
    let contents_c = contents_a;
    let ids1 = vec![hash_from_patch(contents_a), hash_from_patch(contents_b)];
    let ids2 = vec![hash_from_patch(contents_c)];
    let r = collection1.union(&collection2, &ids1, &ids2);
    assert_eq!(r.patches.len(), 2);
    assert_eq!(r.patches[0].rel_patch_path, "a");
    assert_eq!(sorted(&r.patches[0].platforms), vec!["x", "z"]);
    assert_eq!(r.patches[1].rel_patch_path, "b");
    assert_eq!(sorted(&r.patches[1].platforms), vec!["x", "y"]);
}

#[test]
fn transpose_appends_records_and_lists_copies() {
    let source = collection("/src", vec![record("p/one.patch", &[], None), record("two.patch", &["x"], None)]);
    let mut target = collection("/dst/", vec![record("old.patch", &[], None)]);
    let copies = source.transpose_write(&mut target);
    assert_eq!(target.patches.len(), 1 + 2);
    assert_eq!(paths(&target), vec!["old.patch", "p/one.patch", "two.patch"]);
    assert_eq!(target.workdir, "/dst/");
    assert_eq!(
        copies,
        vec![
            ("/src/p/one.patch".to_string(), "/dst/p/one.patch".to_string()),
            ("/src/two.patch".to_string(), "/dst/two.patch".to_string()),
        ]
    );
}

#[test]
fn hash_falls_back_to_sha256_of_whole_content() {
    assert_eq!(
        hash_from_patch("abc"),
        "ba7816bf8f01cfea414140de5dae2223b00361a396177a9cb410ff61f20015ad"
    );
    assert_eq!(
        hash_from_patch(""),
        "e3b0c44298fc1c149afbf4c8996fb92427ae41e4649b934ca495991b7852b855"
    );
    assert_eq!(hash_from_patch("commit\nabc").len(), 64);
    assert_ne!(hash_from_patch("commit\nabc"), hash_from_patch("commit\nabd"));
}

#[test]
fn hash_header_edge_cases() {
    assert_eq!(hash_from_patch("  From abc def\nrest"), "abc");
    assert_eq!(hash_from_patch("commit deadbeef\r\n"), "deadbeef");
    // Split at single spaces: a doubled space leaves an empty second piece.
    assert_eq!(hash_from_patch("commit  abc\n"), "");
    assert_eq!(hash_from_patch("commitabc\n").len(), 64);
    assert_eq!(hash_from_patch("Commit abc\n").len(), 64);
    assert_eq!(hash_from_patch("x\ncommit abc\n").len(), 64);
}

#[test]
fn untagged_records_follow_file_presence() {
    let c = collection(
        "/w",
        vec![record("untagged", &[], None), record("tagged", &["android"], None)],
    );
    for platform in ["android", "chromiumos", "other"] {
        let missing = filter_patches_by_platform(&c, platform, &vec![false, false]);
        assert!(!paths(&missing).contains(&"untagged".to_string()));
        let present = filter_patches_by_platform(&c, platform, &vec![true, false]);
        assert!(paths(&present).contains(&"untagged".to_string()));
    }
    let r = filter_patches_by_platform(&c, "android", &vec![false, false]);
    assert_eq!(paths(&r), vec!["tagged"]);
    assert_eq!(r.workdir, "/w");
}

#[test]
fn version_range_diffs_match_by_path() {
    let ours = collection(
        "",
        vec![
            record("same", &[], range(1, 2)),
            record("moved", &[], range(1, 5)),
            record("absent", &[], range(1, 2)),
            record("none_vs_open", &[], None),
            record("lower_only", &[], Some(VersionRange { from: Some(3), until: None })),
        ],
    );
    let theirs = collection(
        "",
        vec![
            record("same", &[], range(1, 2)),
            record("moved", &[], range(1, 4)),
            record("none_vs_open", &[], Some(VersionRange { from: None, until: None })),
            record("lower_only", &[], Some(VersionRange { from: Some(2), until: None })),
        ],
    );
    let diffs = ours.version_range_diffs(&theirs);
    assert_eq!(
        diffs,
        vec![
            ("moved".to_string(), range(1, 5)),
            ("lower_only".to_string(), Some(VersionRange { from: Some(3), until: None })),
        ]
    );
}

#[test]
fn update_version_ranges_uses_first_entry() {
    let c = collection("/w", vec![record("a", &[], range(0, 1)), record("b", &[], None)]);
    let r = c.update_version_ranges(&[
        ("b".to_string(), range(5, 6)),
        ("b".to_string(), range(7, 8)),
        ("zz".to_string(), None),
    ]);
    assert_eq!(r.patches[0], c.patches[0]);
    assert_eq!(r.patches[1].version_range, range(5, 6));
    assert_eq!(r.workdir, "/w");
}

#[test]
fn record_accessors_and_equality() {
    let p = record("a", &["x", "y"], Some(VersionRange { from: Some(4), until: None }));
    assert_eq!(p.get_from_version(), Some(4));
    assert_eq!(p.get_until_version(), None);
    let q = record("a", &[], None);
    assert_eq!(q.get_from_version(), None);
    let reordered = record("a", &["y", "x", "y"], Some(VersionRange { from: Some(4), until: None }));
    assert_eq!(p, reordered);
    assert_ne!(p, q);
}

#[test]
fn filter_map_and_emptiness() {
    let c = collection("/w", vec![record("a", &[], None), record("b", &[], None), record("c", &[], None)]);
    let kept = c.filter_patches(&vec![true, false, true]);
    assert_eq!(paths(&kept), vec!["a", "c"]);
    assert_eq!(kept.workdir, "/w");
    assert!(!kept.is_empty());
    assert!(c.filter_patches(&vec![false, false, false]).is_empty());
    let mapped = c.map_patches(|p| PatchDictSchema {
        version_range: range(9, 10),
        ..p.clone()
    });
    assert_eq!(paths(&mapped), vec!["a", "b", "c"]);
    assert!(mapped.patches.iter().all(|p| p.version_range == range(9, 10)));
    assert_eq!(c.patch_path(&c.patches[1]), "/w/b");
}

#[test]
fn display_lists_titles_and_paths() {
    let mut with_title = record("a.patch", &[], None);
    with_title.metadata = Some(vec![
        ("info".to_string(), "[1,2]".to_string()),
        ("title".to_string(), "\"Fix the build\"".to_string()),
    ]);
    let mut numeric_title = record("b.patch", &[], None);
    numeric_title.metadata = Some(vec![("title".to_string(), "7".to_string())]);
    let c = collection("/w", vec![with_title, numeric_title, record("c.patch", &[], None)]);
    assert_eq!(
        c.display(),
        "* Fix the build\n  /w/a.patch\n* [No Title]\n  /w/b.patch\n* [No Title]\n  /w/c.patch"
    );
    assert_eq!(collection("/w", vec![]).display(), "");
}

#[test]
fn paths_and_trailing_newline() {
    assert_eq!(join_path("a", "b"), "a/b");
    assert_eq!(join_path("a/", "b"), "a/b");
    assert_eq!(join_path("", "b"), "b");
    assert_eq!(join_path("a", "/b"), "/b");
    assert_eq!(terminate_json("[]".to_string()), "[]\n");
    assert_eq!(terminate_json("[]\n".to_string()), "[]\n");
    assert_eq!(terminate_json(String::new()), "\n");
}

#[test]
fn new_patches_restricts_and_tags() {
    let cur = collection(
        "/w",
        vec![
            record("a", &["android"], range(0, 2)),
            record("b", &["chromiumos"], None),
            record("c", &[], None),
            record("d", &["android"], None),
        ],
    );
    let cur_ids = vec![
        Some("h1".to_string()),
        Some("h2".to_string()),
        Some("h3".to_string()),
        None,
    ];
    let old = collection("/w", vec![record("a", &["android"], range(0, 1)), record("e", &[], None)]);
    let old_ids = vec![Some("h1".to_string()), None];
    let diff = new_patches(&cur, &cur_ids, &old, &old_ids, "android");
    assert_eq!(paths(&diff.cur_collection), vec!["a", "c"]);
    assert_eq!(diff.version_updates, vec![("a".to_string(), range(0, 2))]);
    assert_eq!(paths(&diff.new_patches), vec!["c"]);
    assert_eq!(sorted(&diff.new_patches.patches[0].platforms), vec!["android", "chromiumos"]);
    assert_eq!(diff.new_patches.workdir, "/w");
}
