use dupscan::FileHashEntry;
use dupscan::duplicate_groups;

// Mirrors the structured rendering used around the library: one record
// per duplicate group, `{"hash": ..., "paths": [...]}`.
fn to_json_value(entries: &[FileHashEntry]) -> serde_json::Value {
    let records: Vec<serde_json::Value> = entries
        .iter()
        .map(|e| {
            let mut record = serde_json::Map::new();
            record.insert(
                String::from("hash"),
                serde_json::Value::String(e.hash.clone()),
            );
            record.insert(
                String::from("paths"),
                serde_json::Value::Array(
                    e.paths.iter().map(|p| serde_json::Value::String(p.clone())).collect(),
                ),
            );
            serde_json::Value::Object(record)
        })
        .collect();
    serde_json::Value::Array(records)
}

#[test]
fn structured_output_parses_back_to_the_same_records() {
    let results = vec![
        (String::from("h1"), String::from("a.txt")),
        (String::from("h1"), String::from("b.txt")),
        (String::from("h2"), String::from("c.txt")),
        (String::from("h2"), String::from("d.txt")),
        (String::from("h3"), String::from("e.txt")),
    ];
    let groups = duplicate_groups(results);
    let value = to_json_value(&groups);
    let text = serde_json::to_string(&value).expect("serialization failed");

    let parsed: serde_json::Value = serde_json::from_str(&text).expect("output is not valid JSON");
    assert_eq!(parsed, value);

    let records = parsed.as_array().expect("top level must be an array");
    assert_eq!(records.len(), groups.len());
    for (record, group) in records.iter().zip(groups.iter()) {
        assert_eq!(record["hash"].as_str().unwrap(), group.hash);
        let paths: Vec<&str> =
            record["paths"].as_array().unwrap().iter().map(|p| p.as_str().unwrap()).collect();
        let expected: Vec<&str> = group.paths.iter().map(|p| p.as_str()).collect();
        assert_eq!(paths, expected);
    }
}

#[test]
fn structured_output_of_no_duplicates_is_an_empty_array() {
    let results = vec![(String::from("h1"), String::from("only.txt"))];
    let groups = duplicate_groups(results);
    let text = serde_json::to_string(&to_json_value(&groups)).expect("serialization failed");
    assert_eq!(text, "[]");
}
