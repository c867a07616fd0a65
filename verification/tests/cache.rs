use axes::cache::{content_hash, validation_data};

#[test]
fn test_calculate_validation_data_success() {
    let content = b"hello world";
    let now = std::time::SystemTime::now()
        .duration_since(std::time::UNIX_EPOCH)
        .unwrap()
        .as_micros() as i128;
    let data = validation_data(now, content.len() as u64, content);
    assert_eq!(data.timestamp_micros, now);
    assert_eq!(data.file_size, 11);
    assert_eq!(data.content_hash.len(), 32);
    assert_eq!(data.content_hash, "d74981efa70a0c880b8d8c1985d075db");
}

#[test]
fn content_hash_of_empty_input() {
    let h = content_hash(b"");
    assert_eq!(h, "af1349b9f5f9a1a6a0404dea36dcc949");
}
