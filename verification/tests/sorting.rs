use dupscan::SizedPath;
use dupscan::sort_by_file_size;

fn entry(size: u64, path: &str) -> SizedPath {
    SizedPath { size, path: String::from(path) }
}

#[test]
fn sorts_by_size_ascending_and_keeps_every_entry() {
    let mut files = vec![
        entry(400, "d"),
        entry(10, "a"),
        entry(10_000, "e"),
        entry(3, "b"),
        entry(400, "c"),
    ];
    sort_by_file_size(&mut files);
    let sizes: Vec<u64> = files.iter().map(|f| f.size).collect();
    assert_eq!(sizes, vec![3, 10, 400, 400, 10_000]);
    let mut paths: Vec<String> = files.iter().map(|f| f.path.clone()).collect();
    paths.sort();
    assert_eq!(paths, vec!["a", "b", "c", "d", "e"]);
}

#[test]
fn sorting_an_empty_list_does_nothing() {
    let mut files: Vec<SizedPath> = Vec::new();
    sort_by_file_size(&mut files);
    assert!(files.is_empty());
}
