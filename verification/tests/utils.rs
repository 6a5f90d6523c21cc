use chainlink::utils::truncate;

#[test]
fn test_truncate_short_string() {
    assert_eq!(truncate("hello", 10), "hello");
}

#[test]
fn test_truncate_exact_length() {
    assert_eq!(truncate("hello", 5), "hello");
}

#[test]
fn test_truncate_long_string() {
    assert_eq!(truncate("hello world", 8), "hello...");
}

#[test]
fn test_truncate_unicode() {
    assert_eq!(truncate("héllo wörld", 8), "héllo...");
}

#[test]
fn test_truncate_emoji() {
    assert_eq!(truncate("👋🌍🎉🚀🎯", 4), "👋...");
}

#[test]
fn test_truncate_empty() {
    assert_eq!(truncate("", 10), "");
}

#[test]
fn test_truncate_zero_max() {
    assert_eq!(truncate("hello", 0), "...");
}
