use dupscan::StreamHasher;
use dupscan::hash_content;

// hash generated with https://www.md5hashgenerator.com/
#[test]
fn hash_content_should_hash_simple_reader_content() {
    let reader = "asdf1234341!@#$asdf🥺".as_bytes();
    let hash = hash_content(reader);
    assert_eq!(String::from("8526695f5313baed2e42434180636d66"), hash);
}

#[test]
fn hash_of_empty_input_is_the_empty_digest() {
    let hash = hash_content(&[]);
    assert_eq!(String::from("d41d8cd98f00b204e9800998ecf8427e"), hash);
}

#[test]
fn digest_is_lowercase_hex_of_fixed_length() {
    let hash = hash_content(b"hello world");
    assert_eq!(hash.len(), 32);
    assert!(hash.chars().all(|c| c.is_ascii_digit() || ('a'..='f').contains(&c)));
    assert_eq!(hash, "5eb63bbbe01eeed093cb22bb8f5acdc3");
}

#[test]
fn chunking_does_not_change_the_digest() {
    let data = b"The quick brown fox jumps over the lazy dog";
    let whole = hash_content(data);

    let mut h = StreamHasher::new();
    h.update(&data[..7]);
    h.update(&data[7..9]);
    h.update(&data[9..]);
    assert_eq!(whole, h.finish_hex());

    let mut one_by_one = StreamHasher::new();
    for i in 0..data.len() {
        one_by_one.update(&data[i..i + 1]);
    }
    assert_eq!(whole, one_by_one.finish_hex());
}

#[test]
fn identical_content_identical_digest_distinct_content_distinct_digest() {
    let a = hash_content(b"same bytes");
    let b = hash_content(b"same bytes");
    let c = hash_content(b"other bytes");
    assert_eq!(a, b);
    assert_ne!(a, c);
}
