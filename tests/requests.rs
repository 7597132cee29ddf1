use routerctl::client::{create_request_header, get, post};
use routerctl::router::{login, logout, macflt_disable, macflt_status, active_clients, reboot};

const UA: &str = "User-Agent: Mozilla/5.0 (Windows NT 10.0; Win64; x64) AppleWebKit/537.36 (KHTML, like Gecko) Chrome/60.0.3112.113 Safari/537.36\r\n";

fn headers() -> String {
    format!("Host: 192.168.1.1\r\nAccept: */*\r\n{}Connection: close\r\n\r\n", UA)
}

#[test]
fn get_request_for_logout_page() {
    let expected = format!("GET /logout.html HTTP/1.1\r\n{}", headers());
    assert_eq!(get("/logout.html"), expected);
    assert_eq!(logout(), expected);
}

#[test]
fn post_request_for_login_form() {
    let body = "XWebPageName=index&username=admin&password=admin";
    let expected = format!("POST /GponForm/LoginForm HTTP/1.1\r\n{}{}", headers(), body);
    assert_eq!(post("/GponForm/LoginForm", body), expected);
    assert_eq!(login("admin"), expected);
}

#[test]
fn post_headers_equal_get_headers() {
    let g = get("/x");
    let p = post("/x", "a=b");
    let g_headers = g.strip_prefix("GET /x").unwrap();
    let p_rest = p.strip_prefix("POST /x").unwrap();
    assert_eq!(p_rest, format!("{}a=b", g_headers));
}

#[test]
fn post_with_empty_body_is_still_a_post() {
    assert_eq!(post("/a", ""), format!("POST /a HTTP/1.1\r\n{}", headers()));
}

#[test]
fn empty_body_makes_a_get() {
    assert_eq!(create_request_header("/a", ""), get("/a"));
    assert!(create_request_header("/a", "b").starts_with("POST /a HTTP/1.1\r\n"));
}

#[test]
fn fixed_requests() {
    assert_eq!(
        reboot(),
        format!(
            "POST /GponForm/reboot_XForm HTTP/1.1\r\n{}XWebPageName=reboot&admin_action=reboot",
            headers()
        )
    );
    assert_eq!(
        macflt_disable(),
        format!(
            "POST /GponForm/mac_filter_XForm HTTP/1.1\r\n{}macfltlist=&macfltmode=0&XWebPageName=mac_filter",
            headers()
        )
    );
    assert_eq!(macflt_status(), format!("GET /mac_filter.html HTTP/1.1\r\n{}", headers()));
    assert_eq!(active_clients(), format!("GET /laninfo.html HTTP/1.1\r\n{}", headers()));
}

#[test]
fn login_body_carries_password_verbatim() {
    let r = login("p&ss word");
    assert!(r.ends_with("\r\n\r\nXWebPageName=index&username=admin&password=p&ss word"));
}
