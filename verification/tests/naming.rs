use ampbench::naming::gen_column_name;
use ampbench::text::parse_usize;

#[test]
fn test_column_names() {
    assert_eq!(gen_column_name(0), "a");
    assert_eq!(gen_column_name(1), "b");
    assert_eq!(gen_column_name(25), "z");
    assert_eq!(gen_column_name(26), "aa");
    assert_eq!(gen_column_name(27), "ab");
    assert_eq!(gen_column_name(701), "zz");
    assert_eq!(gen_column_name(702), "aaa");
}

#[test]
fn test_column_names_distinct() {
    let mut seen: Vec<String> = Vec::new();
    for i in 0..1000 {
        let name = gen_column_name(i);
        assert!(!seen.contains(&name));
        seen.push(name);
    }
}

#[test]
fn test_parse_usize() {
    assert_eq!(parse_usize("0"), Some(0));
    assert_eq!(parse_usize("255"), Some(255));
    assert_eq!(parse_usize("007"), Some(7));
    assert_eq!(parse_usize(""), None);
    assert_eq!(parse_usize("12a"), None);
    assert_eq!(parse_usize("-3"), None);
    assert_eq!(parse_usize("99999999999999999999999999"), None);
}
