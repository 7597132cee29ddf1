use routerctl::commandline::Args;
use routerctl::router::{
    login_outcome, parse_active_clients, parse_macflt_status, FilterMode, RouterError,
};
use routerctl::scrape::{
    client_entries, contains_login_marker, find_flag, quoted_macs, split_fields,
};
use routerctl::session::{next_step, start, Operation};

const STATUS_PAGE: &str = "<script>\nvar MacFltEnable=1;\nvar MacFltMode=0;\n\
    list.push({Mac:\"aa:bb:cc:dd:ee:01\"});\n\
    list.push({Mac:\"aa:bb:cc:dd:ee:02\"});\n</script>";

#[test]
fn status_page_fixture() {
    let st = parse_macflt_status(STATUS_PAGE).unwrap();
    assert!(st.enabled);
    assert_eq!(st.mode, FilterMode::Blacklist);
    assert_eq!(st.list, vec!["aa:bb:cc:dd:ee:01".to_string(), "aa:bb:cc:dd:ee:02".to_string()]);
}

#[test]
fn status_page_whitelist_and_no_entries() {
    let st = parse_macflt_status("MacFltEnable=0; MacFltMode=1;").unwrap();
    assert!(!st.enabled);
    assert_eq!(st.mode, FilterMode::Whitelist);
    assert!(st.list.is_empty());
}

#[test]
fn status_page_missing_flags() {
    assert_eq!(parse_macflt_status("MacFltMode=1;").unwrap_err(), RouterError::ParseFailed);
    assert_eq!(parse_macflt_status("MacFltEnable=1;").unwrap_err(), RouterError::ParseFailed);
    assert_eq!(parse_macflt_status("MacFltEnable=2; MacFltMode=0;").unwrap_err(), RouterError::ParseFailed);
    assert_eq!(parse_macflt_status("").unwrap_err(), RouterError::ParseFailed);
}

#[test]
fn flag_takes_leftmost_match() {
    assert_eq!(find_flag("k=2; k=0; k=1;", "k="), Some(false));
    assert_eq!(find_flag("k=1", "k="), None);
    assert_eq!(find_flag("xk=1;", "k="), Some(true));
}

#[test]
fn quoted_entries_need_text_and_a_closing_quote() {
    assert_eq!(quoted_macs("Mac:\"\" Mac:\"x\" Mac:\"y"), vec!["x".to_string()]);
    assert_eq!(quoted_macs("Mac:\"a\nb\""), vec!["a\nb".to_string()]);
    assert!(quoted_macs("").is_empty());
}

#[test]
fn login_page_means_auth_failed() {
    let page = "HTTP/1.1 200 OK\r\n\r\n<script>top.location='/login.html';</script>";
    assert_eq!(login_outcome(page), Err(RouterError::AuthFailed));
    assert_eq!(login_outcome("HTTP/1.1 200 OK\r\n\r\n<html>status</html>"), Ok(()));
    assert_eq!(login_outcome(""), Ok(()));
}

#[test]
fn login_marker_is_the_literal_page_name() {
    assert!(contains_login_marker("login.html"));
    assert!(!contains_login_marker("loginXhtml"));
    assert!(!contains_login_marker("login_html"));
    assert!(!contains_login_marker("login.htm"));
    assert_eq!(login_outcome("<a href=\"loginXhtml\">"), Ok(()));
}

#[test]
fn client_table_rows() {
    let page = "client_list[0]='1|laptop|aa:bb:cc:dd:ee:ff|192.168.1.2|Wireless|00:10:00';\n\
        client_list[]='skipped';\n\
        client_list[12]='2|phone|11:22:33:44:55:66|192.168.1.3|Ethernet|01:00:00';";
    let rows = parse_active_clients(page);
    assert_eq!(rows.len(), 2);
    assert_eq!(rows[0], vec!["1", "laptop", "aa:bb:cc:dd:ee:ff", "192.168.1.2", "Wireless", "00:10:00"]);
    assert_eq!(rows[1], vec!["2", "phone", "11:22:33:44:55:66", "192.168.1.3", "Ethernet", "01:00:00"]);
    assert!(parse_active_clients("no clients here").is_empty());
}

#[test]
fn client_record_index_may_use_any_decimal_digits() {
    assert_eq!(client_entries("client_list[\u{663}\u{966}]='a|b';"), vec!["a|b"]);
    assert_eq!(client_entries("client_list[\u{1d7ce}]='c';"), vec!["c"]);
    assert!(client_entries("client_list[\u{b2}]='d';").is_empty());
    assert!(client_entries("client_list[x]='e';").is_empty());
}

#[test]
fn client_records_need_the_semicolon() {
    assert!(client_entries("client_list[1]='a'").is_empty());
    assert_eq!(client_entries("client_list[1]='a';client_list[2]='b';"), vec!["a", "b"]);
}

#[test]
fn fields_split_at_every_bar() {
    assert_eq!(split_fields("a||b|"), vec!["a", "", "b", ""]);
    assert_eq!(split_fields(""), vec!["".to_string()]);
    assert_eq!(split_fields("one"), vec!["one".to_string()]);
}

#[test]
fn plans_follow_the_first_action() {
    let mut args = Args::default();
    assert!(start(&args).is_empty());
    args.reboot = true;
    assert_eq!(start(&args), vec![Operation::Login, Operation::Reboot]);
    args.show_status = true;
    assert_eq!(
        start(&args),
        vec![Operation::Login, Operation::MacfltStatus, Operation::ActiveClients, Operation::Logout]
    );
    args.login_only = true;
    assert_eq!(start(&args), vec![Operation::Login]);
    let args = Args { logout: true, ..Args::default() };
    assert_eq!(start(&args), vec![Operation::Logout]);
    let args = Args { enable_macflt: true, disable_macflt: true, ..Args::default() };
    assert_eq!(start(&args), vec![Operation::Login, Operation::MacfltEnable, Operation::Logout]);
}

#[test]
fn error_messages() {
    assert_eq!(RouterError::AuthFailed.message(), "wrong password or someone logged in");
    assert!(!RouterError::ParseFailed.message().is_empty());
}

#[test]
fn steps_stop_at_the_first_failure() {
    let args = Args { get_clients_only: true, ..Args::default() };
    assert_eq!(next_step(&args, 0, true), Some(Operation::Login));
    assert_eq!(next_step(&args, 1, true), Some(Operation::ActiveClients));
    assert_eq!(next_step(&args, 2, true), Some(Operation::Logout));
    assert_eq!(next_step(&args, 3, true), None);
    assert_eq!(next_step(&args, 1, false), None);
    assert_eq!(next_step(&args, 2, false), None);
    assert_eq!(next_step(&Args::default(), 0, true), None);
}
