use patch_sync::{hash_from_patch, PatchCollection, PatchDictSchema, VersionRange};

fn strings(v: &[&str]) -> Vec<String> {
    v.iter().map(|s| s.to_string()).collect()
}

fn record(path: &str, platforms: &[&str], range: Option<VersionRange>) -> PatchDictSchema {
    PatchDictSchema {
        rel_patch_path: path.to_string(),
        metadata: None,
        platforms: strings(platforms),
        version_range: range,
    }
}

fn range(from: u64, until: u64) -> Option<VersionRange> {
    Some(VersionRange {
        from: Some(from),
        until: Some(until),
    })
}

#[test]
fn test_hash_from_patch() {
    // Example git patch from Gerrit
    let desired_hash = "004be4037e1e9c6092323c5c9268acb3ecf9176c";
    let test_file_contents = "commit 004be4037e1e9c6092323c5c9268acb3ecf9176c\n\
        Author: An Author <some_email>\n\
        Date:   Thu Aug 6 12:34:16 2020 -0700";
    assert_eq!(&hash_from_patch(test_file_contents), desired_hash);

    // Example git patch from upstream
    let desired_hash = "6f85225ef3791357f9b1aa097b575b0a2b0dff48";
    let test_file_contents = "From 6f85225ef3791357f9b1aa097b575b0a2b0dff48\n\
        Mon Sep 17 00:00:00 2001\n\
        From: Another Author <another_email>\n\
        Date: Wed, 18 Aug 2021 15:03:03 -0700";
    assert_eq!(&hash_from_patch(test_file_contents), desired_hash);
}

#[test]
fn test_union() {
    let patch1 = record("a", &["x"], range(0, 1));
    let patch2 = PatchDictSchema {
        rel_patch_path: "b".into(),
        platforms: strings(&["x", "y"]),
        ..patch1.clone()
    };
    let patch3 = PatchDictSchema {
        platforms: strings(&["z", "x"]),
        ..patch1.clone()
    };
    let collection1 = PatchCollection {
        workdir: String::new(),
        patches: vec![patch1, patch2],
    };
    let collection2 = PatchCollection {
        workdir: String::new(),
        patches: vec![patch3],
    };
    // Each record is identified by its relative path.
    let union = collection1.union(&collection2, &strings(&["a", "b"]), &strings(&["a"]));
    assert_eq!(union.patches.len(), 2);
    assert_eq!(union.patches[0].platforms, vec!["x", "z"]);
    assert_eq!(union.patches[1].platforms, vec!["x", "y"]);
}

#[test]
fn test_union_empties() {
    let patch1 = record("a", &[], range(0, 1));
    let collection1 = PatchCollection {
        workdir: String::new(),
        patches: vec![patch1.clone()],
    };
    let collection2 = PatchCollection {
        workdir: String::new(),
        patches: vec![patch1],
    };
    let union = collection1.union(&collection2, &strings(&["a"]), &strings(&["a"]));
    assert_eq!(union.patches.len(), 1);
    assert_eq!(union.patches[0].platforms.len(), 0);
}

fn version_range_fixture() -> Vec<PatchCollection> {
    let patch1 = record("a", &[], range(0, 1));
    let patch1_updated = PatchDictSchema {
        version_range: range(0, 3),
        ..patch1.clone()
    };
    let patch2 = PatchDictSchema {
        rel_patch_path: "b".into(),
        ..patch1.clone()
    };
    let collection1 = PatchCollection {
        workdir: String::new(),
        patches: vec![patch1, patch2.clone()],
    };
    let collection2 = PatchCollection {
        workdir: String::new(),
        patches: vec![patch1_updated, patch2.clone()],
    };
    let collection3 = PatchCollection {
        workdir: String::new(),
        patches: vec![patch2],
    };
    vec![collection1, collection2, collection3]
}

#[test]
fn test_version_differentials() {
    let fixture = version_range_fixture();
    let diff = fixture[0].version_range_diffs(&fixture[1]);
    assert_eq!(diff.len(), 1);
    assert_eq!(&diff, &[("a".to_string(), range(0, 1))]);
    let diff = fixture[1].version_range_diffs(&fixture[2]);
    assert_eq!(diff.len(), 0);
}

#[test]
fn test_version_updates() {
    let fixture = version_range_fixture();
    let collection = fixture[0].update_version_ranges(&[("a".into(), None)]);
    assert_eq!(collection.patches[0].version_range, None);
    assert_eq!(collection.patches[1], fixture[1].patches[1]);
    let new_version_range = range(42, 43);
    let collection = fixture[0].update_version_ranges(&[("a".into(), new_version_range)]);
    assert_eq!(collection.patches[0].version_range, new_version_range);
    assert_eq!(collection.patches[1], fixture[1].patches[1]);
}
