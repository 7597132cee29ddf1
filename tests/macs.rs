use routerctl::commandline::Args;
use routerctl::mac::{is_mac_address, sort_dedup};
use routerctl::router::{black_list_macs, macflt_enable};

fn strings(v: &[&str]) -> Vec<String> {
    v.iter().map(|s| s.to_string()).collect()
}

#[test]
fn valid_macs_accepted() {
    assert!(is_mac_address("AA:5f:04:db:ea:49"));
    assert!(is_mac_address("Ac:5f:04:db:ea:49"));
    assert!(is_mac_address("00:11:22:33:44:55"));
    assert!(is_mac_address("ff:FF:aB:Cd:eF:09"));
}

#[test]
fn invalid_macs_rejected() {
    assert!(!is_mac_address("hello:world:94859"));
    assert!(!is_mac_address("AA:5f:04:db:ea"));
    assert!(!is_mac_address("AAA:5f:04:db:ea:4"));
    assert!(!is_mac_address("A:5f:04:db:ea:491"));
    assert!(!is_mac_address("GG:5f:04:db:ea:49"));
    assert!(!is_mac_address("AA-5f-04-db-ea-49"));
    assert!(!is_mac_address("AA:5f:04:db:ea:49\n"));
    assert!(!is_mac_address("AA:5f:04:db:ea:49:00"));
    assert!(!is_mac_address(""));
}

#[test]
fn dedup_collapses_exact_duplicates() {
    let r = sort_dedup(&strings(&["b:b:b:b:b:b", "A:A:A:A:A:A", "b:b:b:b:b:b"]));
    assert_eq!(r, strings(&["A:A:A:A:A:A", "b:b:b:b:b:b"]));
}

#[test]
fn dedup_keeps_case_distinct_entries() {
    let r = sort_dedup(&strings(&["aa:bb:cc:dd:ee:ff", "AA:BB:CC:DD:EE:FF", "aa:bb:cc:dd:ee:ff"]));
    assert_eq!(r, strings(&["AA:BB:CC:DD:EE:FF", "aa:bb:cc:dd:ee:ff"]));
}

#[test]
fn dedup_sorts_like_str() {
    let input = strings(&["b", "ab", "a", "", "ba", "a"]);
    let mut expected = input.clone();
    expected.sort_unstable();
    expected.dedup();
    assert_eq!(sort_dedup(&input), expected);
    assert_eq!(sort_dedup(&Vec::new()), Vec::<String>::new());
}

#[test]
fn no_macs_means_nothing_to_send() {
    let args = Args::default();
    assert_eq!(macflt_enable(&args), None);
    let args = Args {
        black_list_file: Some(Vec::new()),
        add_black_list: Some(Vec::new()),
        ..Args::default()
    };
    assert_eq!(macflt_enable(&args), None);
}

#[test]
fn enable_sends_sorted_unique_list() {
    let args = Args {
        black_list_file: Some(strings(&["22:22:22:22:22:22", "11:11:11:11:11:11"])),
        add_black_list: Some(strings(&["11:11:11:11:11:11", "33:33:33:33:33:33"])),
        ..Args::default()
    };
    assert_eq!(
        black_list_macs(&args),
        strings(&["11:11:11:11:11:11", "22:22:22:22:22:22", "33:33:33:33:33:33"])
    );
    let r = macflt_enable(&args).unwrap();
    assert!(r.starts_with("POST /GponForm/mac_filter_XForm HTTP/1.1\r\n"));
    assert!(r.ends_with(
        "\r\n\r\nmacfltenable=on&macfltlist=0-11:11:11:11:11:11-.-0-22:22:22:22:22:22\
         -.-0-33:33:33:33:33:33&macfltmode=0&XWebPageName=mac_filter"
    ));
}

#[test]
fn enable_with_one_mac() {
    let args = Args {
        add_black_list: Some(strings(&["aa:bb:cc:dd:ee:ff"])),
        ..Args::default()
    };
    let r = macflt_enable(&args).unwrap();
    assert!(r.ends_with("macfltlist=0-aa:bb:cc:dd:ee:ff&macfltmode=0&XWebPageName=mac_filter"));
}
