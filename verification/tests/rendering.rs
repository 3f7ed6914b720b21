use dupscan::FileHashEntry;
use dupscan::render_human_output;

#[test]
fn renders_one_block_per_group() {
    let entries = vec![
        FileHashEntry::new(
            String::from("8526695f5313baed2e42434180636d66"),
            vec![String::from("./a.txt"), String::from("./b.txt")],
        ),
        FileHashEntry::new(
            String::from("d41d8cd98f00b204e9800998ecf8427e"),
            vec![String::from("x"), String::from("y"), String::from("z")],
        ),
    ];
    let text = render_human_output(&entries);
    let expected = "Found 2 occurrences:\n\
                    Path: ./a.txt\n\
                    Path: ./b.txt\n\
                    MD5 Hash: 8526695f5313baed2e42434180636d66\n\n\
                    Found 3 occurrences:\n\
                    Path: x\n\
                    Path: y\n\
                    Path: z\n\
                    MD5 Hash: d41d8cd98f00b204e9800998ecf8427e\n\n";
    assert_eq!(text, expected);
}

#[test]
fn renders_counts_above_nine_in_full_decimal() {
    let paths: Vec<String> = (0..12).map(|i| format!("p{}", i)).collect();
    let entries = vec![FileHashEntry::new(String::from("feed"), paths)];
    let text = render_human_output(&entries);
    assert!(text.starts_with("Found 12 occurrences:\n"));
    assert!(text.ends_with("MD5 Hash: feed\n\n"));
    assert!(text.contains("Path: p11\n"));
}

#[test]
fn renders_nothing_for_no_groups() {
    let entries: Vec<FileHashEntry> = Vec::new();
    assert_eq!(render_human_output(&entries), "");
}
