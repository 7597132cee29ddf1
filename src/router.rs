use vstd::prelude::*;

use crate::client::{get, get_text, post, post_text};
use crate::commandline::Args;
use crate::mac::{sort_dedup, strictly_sorted};
use crate::scrape::{
    client_entries,
    client_entries_from,
    contains_login_marker,
    fields,
    find_flag,
    first_flag,
    has_login_marker,
    quoted_from,
    quoted_macs,
    split_fields,
    views,
};

verus! {

pub const LOGIN_PATH: &'static str = "/GponForm/LoginForm";

/// The login form, up to the password.
pub const LOGIN_FORM: &'static str = "XWebPageName=index&username=admin&password=";

pub const LOGOUT_PATH: &'static str = "/logout.html";

pub const REBOOT_PATH: &'static str = "/GponForm/reboot_XForm";

pub const REBOOT_FORM: &'static str = "XWebPageName=reboot&admin_action=reboot";

/// The form that both enables and disables the MAC filter.
pub const MACFLT_PATH: &'static str = "/GponForm/mac_filter_XForm";

pub const MACFLT_OFF_FORM: &'static str = "macfltlist=&macfltmode=0&XWebPageName=mac_filter";

/// The form that enables the filter, up to its list of addresses.
pub const MACFLT_ON_HEAD: &'static str = "macfltenable=on&macfltlist=0-";

/// The form that enables the filter, after its list of addresses.
pub const MACFLT_ON_TAIL: &'static str = "&macfltmode=0&XWebPageName=mac_filter";

/// What stands between two addresses of the filter's list.
pub const MAC_SEPARATOR: &'static str = "-.-0-";

pub const MACFLT_STATUS_PATH: &'static str = "/mac_filter.html";

pub const LANINFO_PATH: &'static str = "/laninfo.html";

pub const MACFLT_ENABLE_KEY: &'static str = "MacFltEnable=";

pub const MACFLT_MODE_KEY: &'static str = "MacFltMode=";

/// Why an operation on the router failed.
#[derive(Debug, Clone, Copy, PartialEq, Eq, Structural)]
pub enum RouterError {
    /// The router answered with its login page: a wrong password, or
    /// another session is open.
    AuthFailed,
    /// The filter's status page lacks its enabled or its mode flag.
    ParseFailed,
}

impl RouterError {
    /// A one-line description for the operator.
    pub fn message(&self) -> (r: String)
        ensures
            *self == RouterError::AuthFailed ==> r@ == "wrong password or someone logged in"@,
            *self == RouterError::ParseFailed ==> r@
                == "the MAC filter page lacks its status or mode"@,
    {
        proof {
            reveal_strlit("wrong password or someone logged in");
            reveal_strlit("the MAC filter page lacks its status or mode");
        }
        match self {
            RouterError::AuthFailed => String::from_str("wrong password or someone logged in"),
            RouterError::ParseFailed => String::from_str(
                "the MAC filter page lacks its status or mode",
            ),
        }
    }
}

/// The request that logs in as `admin` with `password`.
pub fn login(password: &str) -> (r: String)
    ensures
        r@ == post_text(LOGIN_PATH@, LOGIN_FORM@ + password@),
{
    let mut body = String::from_str(LOGIN_FORM);
    body.append(password);
    post(LOGIN_PATH, body.as_str())
}

/// Judges the router's answer to the login request: the login page again
/// means that no session was opened.
pub fn login_outcome(response: &str) -> (r: Result<(), RouterError>)
    ensures
        r is Err <==> has_login_marker(response@),
        r matches Err(e) ==> e == RouterError::AuthFailed,
{
    if contains_login_marker(response) {
        Err(RouterError::AuthFailed)
    } else {
        Ok(())
    }
}

/// The request that ends the session.
pub fn logout() -> (r: String)
    ensures
        r@ == get_text(LOGOUT_PATH@),
{
    get(LOGOUT_PATH)
}

/// The request that restarts the router.
pub fn reboot() -> (r: String)
    ensures
        r@ == post_text(REBOOT_PATH@, REBOOT_FORM@),
{
    post(REBOOT_PATH, REBOOT_FORM)
}

/// The request that empties the filter's list and turns the filter off.
pub fn macflt_disable() -> (r: String)
    ensures
        r@ == post_text(MACFLT_PATH@, MACFLT_OFF_FORM@),
{
    post(MACFLT_PATH, MACFLT_OFF_FORM)
}

/// The entries of `l` joined by the filter list's separator.
pub open spec fn join_macs(l: Seq<Seq<char>>) -> Seq<char>
    decreases l.len(),
{
    if l.len() == 0 {
        Seq::empty()
    } else if l.len() == 1 {
        l[0]
    } else {
        join_macs(l.drop_last()) + MAC_SEPARATOR@ + l.last()
    }
}

/// The form that turns the filter on, in black-list mode, with the list `l`.
pub open spec fn macflt_on_form(l: Seq<Seq<char>>) -> Seq<char> {
    MACFLT_ON_HEAD@ + join_macs(l) + MACFLT_ON_TAIL@
}

/// The entries of an optional list; none where there is no list.
pub open spec fn listed(o: Option<Vec<String>>) -> Seq<Seq<char>> {
    match o {
        Some(v) => views(v@),
        None => Seq::empty(),
    }
}

/// Every address given for the black list: from the file, then from the
/// command line.
pub open spec fn black_list(args: Args) -> Seq<Seq<char>> {
    listed(args.black_list_file) + listed(args.add_black_list)
}

/// Joins the entries of `l` with the filter list's separator.
fn join(l: &Vec<String>) -> (r: String)
    ensures
        r@ == join_macs(views(l@)),
{
    let mut r = String::new();
    let mut i: usize = 0;
    proof {
        assert(views(l@).take(0) =~= Seq::<Seq<char>>::empty());
    }
    while i < l.len()
        invariant
            i <= l.len(),
            r@ == join_macs(views(l@).take(i as int)),
        decreases l.len() - i,
    {
        if i > 0 {
            r.append(MAC_SEPARATOR);
        }
        r.append(l[i].as_str());
        proof {
            let v = views(l@);
            assert(v.take(i + 1).drop_last() =~= v.take(i as int));
            if i == 0 {
                assert(r@ =~= join_macs(v.take(1)));
            }
        }
        i += 1;
    }
    proof {
        assert(views(l@).take(i as int) =~= views(l@));
    }
    r
}

/// All the black-list addresses, from the file and from the command line,
/// sorted and without repeats.
pub fn black_list_macs(args: &Args) -> (r: Vec<String>)
    ensures
        strictly_sorted(views(r@)),
        forall|s: Seq<char>| views(r@).contains(s) <==> black_list(*args).contains(s),
{
    let mut all: Vec<String> = Vec::new();
    match &args.black_list_file {
        Some(l) => {
            all = l.clone();
        },
        None => {},
    }
    match &args.add_black_list {
        Some(l) => {
            let mut extra = l.clone();
            all.append(&mut extra);
        },
        None => {},
    }
    proof {
        assert(views(all@) =~= black_list(*args));
    }
    sort_dedup(&all)
}

/// The request that turns the filter on with every black-list address,
/// sorted and without repeats; `None`, and nothing to send, where there is
/// no address at all.
pub fn macflt_enable(args: &Args) -> (r: Option<String>)
    ensures
        r is None <==> black_list(*args).len() == 0,
        r matches Some(q) ==> exists|l: Seq<Seq<char>>|
            {
                &&& strictly_sorted(l)
                &&& forall|s: Seq<char>| l.contains(s) <==> black_list(*args).contains(s)
                &&& q@ == post_text(MACFLT_PATH@, macflt_on_form(l))
            },
{
    let list = black_list_macs(args);
    if list.len() == 0 {
        proof {
            if black_list(*args).len() > 0 {
                assert(black_list(*args).contains(black_list(*args)[0]));
                assert(!views(list@).contains(black_list(*args)[0]));
            }
        }
        return None;
    }
    proof {
        let b = black_list(*args);
        assert(views(list@).contains(views(list@)[0]));
        assert(b.contains(views(list@)[0]));
        let k = choose|k: int| 0 <= k < b.len() && b[k] == views(list@)[0];
    }
    let mut body = String::from_str(MACFLT_ON_HEAD);
    let joined = join(&list);
    body.append(joined.as_str());
    body.append(MACFLT_ON_TAIL);
    let q = post(MACFLT_PATH, body.as_str());
    proof {
        assert(body@ =~= macflt_on_form(views(list@)));
    }
    Some(q)
}

/// Which addresses the MAC filter lets through.
#[derive(Debug, Clone, Copy, PartialEq, Eq, Structural)]
pub enum FilterMode {
    /// The listed addresses are refused (the page's mode `0`).
    Blacklist,
    /// Only the listed addresses are let through (the page's mode `1`).
    Whitelist,
}

/// The MAC filter's state as its page shows it.
#[derive(Debug, Clone)]
pub struct FilterStatus {
    pub enabled: bool,
    pub mode: FilterMode,
    /// The listed addresses, in the order of the page.
    pub list: Vec<String>,
}

/// The request for the MAC filter's page.
pub fn macflt_status() -> (r: String)
    ensures
        r@ == get_text(MACFLT_STATUS_PATH@),
{
    get(MACFLT_STATUS_PATH)
}

/// Reads the MAC filter's state from its page: the flags that follow
/// `MacFltEnable=` and `MacFltMode=`, and every quoted `Mac:"..."` entry. A
/// page without either flag is refused.
pub fn parse_macflt_status(html: &str) -> (r: Result<FilterStatus, RouterError>)
    ensures
        r is Ok <==> (first_flag(html@, MACFLT_ENABLE_KEY@) is Some && first_flag(
            html@,
            MACFLT_MODE_KEY@,
        ) is Some),
        r matches Ok(st) ==> {
            &&& Some(st.enabled) == first_flag(html@, MACFLT_ENABLE_KEY@)
            &&& first_flag(html@, MACFLT_MODE_KEY@) == Some(st.mode == FilterMode::Whitelist)
            &&& views(st.list@) == quoted_from(html@, 0)
        },
        r matches Err(e) ==> e == RouterError::ParseFailed,
{
    let enabled = match find_flag(html, MACFLT_ENABLE_KEY) {
        Some(b) => b,
        None => {
            return Err(RouterError::ParseFailed);
        },
    };
    let mode = match find_flag(html, MACFLT_MODE_KEY) {
        Some(true) => FilterMode::Whitelist,
        Some(false) => FilterMode::Blacklist,
        None => {
            return Err(RouterError::ParseFailed);
        },
    };
    let list = quoted_macs(html);
    Ok(FilterStatus { enabled, mode, list })
}

/// The request for the page that lists the router's clients.
pub fn active_clients() -> (r: String)
    ensures
        r@ == get_text(LANINFO_PATH@),
{
    get(LANINFO_PATH)
}

/// Reads the client table from the LAN page: one row for each
/// `client_list[n]='...';` record, in the page's order, split at each `|`
/// into ID, host name, MAC address, IP address, connection type and uptime.
pub fn parse_active_clients(html: &str) -> (r: Vec<Vec<String>>)
    ensures
        r.len() == client_entries_from(html@, 0).len(),
        forall|i: int|
            0 <= i < r.len() ==> views(#[trigger] r@[i]@) == fields(client_entries_from(html@, 0)[i]),
{
    let entries = client_entries(html);
    let mut rows: Vec<Vec<String>> = Vec::new();
    let mut i: usize = 0;
    while i < entries.len()
        invariant
            i <= entries.len(),
            views(entries@) == client_entries_from(html@, 0),
            rows.len() == i,
            forall|k: int|
                0 <= k < i ==> views(#[trigger] rows@[k]@) == fields(entries@[k]@),
        decreases entries.len() - i,
    {
        let row = split_fields(entries[i].as_str());
        rows.push(row);
        i += 1;
    }
    proof {
        assert forall|k: int| 0 <= k < rows.len() implies views(#[trigger] rows@[k]@) == fields(
            client_entries_from(html@, 0)[k],
        ) by {
            assert(views(entries@)[k] == entries@[k]@);
        }
    }
    rows
}

} // verus!
