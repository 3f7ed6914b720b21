use dupscan::FileHashEntry;
use dupscan::duplicate_groups;
use dupscan::filter_duplicates;
use dupscan::group_by_hash;
use dupscan::hash_content;

fn pair(hash: &str, path: &str) -> (String, String) {
    (String::from(hash), String::from(path))
}

#[test]
fn file_hash_entry_keeps_its_fields() {
    let e = FileHashEntry::new(String::from("cafe"), vec![String::from("a"), String::from("b")]);
    assert_eq!(e.hash, "cafe");
    assert_eq!(e.paths, vec![String::from("a"), String::from("b")]);
}

#[test]
fn grouping_keys_by_digest_in_first_seen_order() {
    let results = vec![
        pair("h1", "one"),
        pair("h2", "two"),
        pair("h1", "three"),
        pair("h3", "four"),
        pair("h2", "five"),
    ];
    let groups = group_by_hash(results);
    assert_eq!(groups.len(), 3);
    assert_eq!(groups[0].hash, "h1");
    assert_eq!(groups[0].paths, vec![String::from("one"), String::from("three")]);
    assert_eq!(groups[1].hash, "h2");
    assert_eq!(groups[1].paths, vec![String::from("two"), String::from("five")]);
    assert_eq!(groups[2].hash, "h3");
    assert_eq!(groups[2].paths, vec![String::from("four")]);
}

#[test]
fn grouping_loses_and_duplicates_nothing() {
    let results = vec![
        pair("ha", "p1"),
        pair("hb", "p2"),
        pair("ha", "p3"),
        pair("ha", "p4"),
        pair("hc", "p5"),
    ];
    let groups = group_by_hash(results);
    let mut all_paths: Vec<String> = groups.iter().flat_map(|g| g.paths.clone()).collect();
    all_paths.sort();
    let expected: Vec<String> =
        ["p1", "p2", "p3", "p4", "p5"].iter().map(|p| String::from(*p)).collect();
    assert_eq!(all_paths, expected);
}

#[test]
fn no_singleton_group_is_ever_reported() {
    let results = vec![
        pair("h1", "a"),
        pair("h2", "b"),
        pair("h1", "c"),
        pair("h3", "d"),
    ];
    let groups = filter_duplicates(group_by_hash(results));
    assert!(groups.iter().all(|g| g.paths.len() >= 2));
    assert_eq!(groups.len(), 1);
    assert_eq!(groups[0].hash, "h1");
}

#[test]
fn scenario_two_identical_files_one_different() {
    let content_a = b"identical content".to_vec();
    let content_b = b"identical content".to_vec();
    let content_c = b"something else".to_vec();
    let results = vec![
        (hash_content(&content_a), String::from("a.txt")),
        (hash_content(&content_b), String::from("b.txt")),
        (hash_content(&content_c), String::from("c.txt")),
    ];
    let groups = duplicate_groups(results);
    assert_eq!(groups.len(), 1);
    assert_eq!(groups[0].paths, vec![String::from("a.txt"), String::from("b.txt")]);
    assert_eq!(groups[0].hash, hash_content(b"identical content"));
    assert!(groups.iter().all(|g| !g.paths.contains(&String::from("c.txt"))));
}

#[test]
fn rerunning_over_reordered_results_groups_the_same_memberships() {
    let first = vec![
        pair("h1", "a"),
        pair("h2", "b"),
        pair("h1", "c"),
        pair("h2", "d"),
    ];
    let second = vec![
        pair("h2", "d"),
        pair("h1", "c"),
        pair("h2", "b"),
        pair("h1", "a"),
    ];
    let g1 = duplicate_groups(first);
    let g2 = duplicate_groups(second);
    assert_eq!(g1.len(), g2.len());
    for e1 in &g1 {
        let e2 = g2.iter().find(|e| e.hash == e1.hash).expect("digest missing on rerun");
        let mut p1 = e1.paths.clone();
        let mut p2 = e2.paths.clone();
        p1.sort();
        p2.sort();
        assert_eq!(p1, p2);
    }
}
