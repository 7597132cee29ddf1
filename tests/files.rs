use routerctl::commandline::{first_invalid_mac, parse_black_list, split_words};

#[test]
fn black_list_file_keeps_valid_macs_in_order() {
    let text = "aa:bb:cc:dd:ee:ff\n  junk\t11:22:33:44:55:66\r\nAA:BB:CC:DD:EE:F\n";
    let read = parse_black_list(text);
    assert_eq!(read.macs, vec!["aa:bb:cc:dd:ee:ff", "11:22:33:44:55:66"]);
    assert_eq!(read.rejected, vec!["junk", "AA:BB:CC:DD:EE:F"]);
}

#[test]
fn empty_black_list_file() {
    let read = parse_black_list(" \n\t ");
    assert!(read.macs.is_empty());
    assert!(read.rejected.is_empty());
}

#[test]
fn words_split_like_split_whitespace() {
    for text in ["", "a", "  a  b ", "x\u{a0}y\u{3000}z\u{85}w", "a\u{2009}b\u{200b}c", "\u{1680}\u{2028}q"] {
        let expected: Vec<&str> = text.split_whitespace().collect();
        assert_eq!(split_words(text), expected, "on {:?}", text);
    }
}

#[test]
fn first_invalid_mac_position() {
    let ok = vec!["aa:bb:cc:dd:ee:ff".to_string(), "00:00:00:00:00:00".to_string()];
    assert_eq!(first_invalid_mac(&ok), None);
    let bad = vec!["aa:bb:cc:dd:ee:ff".to_string(), "zz".to_string(), "also bad".to_string()];
    assert_eq!(first_invalid_mac(&bad), Some(1));
    assert_eq!(first_invalid_mac(&Vec::new()), None);
}
