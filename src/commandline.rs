use vstd::prelude::*;

use crate::mac::{is_mac, is_mac_address};
use crate::scrape::{chars_of, views};

verus! {

/// What one run of the tool is asked to do, assembled once at start-up.
#[derive(Debug, Default, Clone)]
pub struct Args {
    /// The router's address, `ip:port`.
    pub router: String,
    /// The password of the `admin` user.
    pub password: String,
    pub login_only: bool,
    pub get_clients_only: bool,
    pub get_macs_only: bool,
    pub show_status: bool,
    pub enable_macflt: bool,
    pub disable_macflt: bool,
    pub add_white_list: Option<Vec<String>>,
    pub add_black_list: Option<Vec<String>>,
    /// The addresses read from a black-list file.
    pub black_list_file: Option<Vec<String>>,
    pub show_white_list: bool,
    pub show_black_list: bool,
    pub logout: bool,
    pub reboot: bool,
    pub verbose: bool,
}

/// Returns the position of the first entry of `list` that is not a MAC
/// address; `None` where all of them are.
pub fn first_invalid_mac(list: &Vec<String>) -> (r: Option<usize>)
    ensures
        r matches Some(i) ==> i < list.len() && !is_mac(list@[i as int]@),
        r matches Some(i) ==> forall|k: int| 0 <= k < i ==> is_mac(#[trigger] list@[k]@),
        r is None ==> forall|k: int| 0 <= k < list.len() ==> is_mac(#[trigger] list@[k]@),
{
    let mut i: usize = 0;
    while i < list.len()
        invariant
            i <= list.len(),
            forall|k: int| 0 <= k < i ==> is_mac(#[trigger] list@[k]@),
        decreases list.len() - i,
    {
        if !is_mac_address(list[i].as_str()) {
            return Some(i);
        }
        i += 1;
    }
    None
}

/// `c` is white space as Unicode's `White_Space` property has it, which is
/// what separates the entries of a black-list file.
pub open spec fn is_space(c: char) -> bool {
    ('\u{9}' <= c && c <= '\u{d}') || c == ' ' || c == '\u{85}' || c == '\u{a0}' || c == '\u{1680}'
        || ('\u{2000}' <= c && c <= '\u{200a}') || c == '\u{2028}' || c == '\u{2029}' || c
        == '\u{202f}' || c == '\u{205f}' || c == '\u{3000}'
}

fn is_space_char(c: char) -> (r: bool)
    ensures
        r == is_space(c),
{
    ('\u{9}' <= c && c <= '\u{d}') || c == ' ' || c == '\u{85}' || c == '\u{a0}' || c == '\u{1680}'
        || ('\u{2000}' <= c && c <= '\u{200a}') || c == '\u{2028}' || c == '\u{2029}' || c
        == '\u{202f}' || c == '\u{205f}' || c == '\u{3000}'
}

/// The first white-space position of `t` at or after `k`; `t.len()` where
/// there is none.
pub open spec fn word_end(t: Seq<char>, k: int) -> int
    decreases t.len() - k,
{
    if k >= t.len() {
        t.len() as int
    } else if k >= 0 && is_space(t[k]) {
        k
    } else {
        word_end(t, k + 1)
    }
}

/// The maximal runs of non-space characters of `t` at or after `j`, in order.
pub open spec fn words_from(t: Seq<char>, j: int) -> Seq<Seq<char>>
    decreases t.len() - j,
{
    if j < 0 || j >= t.len() {
        Seq::empty()
    } else if is_space(t[j]) {
        words_from(t, j + 1)
    } else {
        let e = word_end(t, j);
        if j < e <= t.len() {
            seq![t.subrange(j, e)] + words_from(t, e)
        } else {
            Seq::empty()
        }
    }
}

/// The words of `t`, as white space separates them.
pub open spec fn words(t: Seq<char>) -> Seq<Seq<char>> {
    words_from(t, 0)
}

/// Splits `text` into its words.
pub fn split_words(text: &str) -> (r: Vec<String>)
    ensures
        views(r@) == words(text@),
{
    let t = chars_of(text);
    let mut r: Vec<String> = Vec::new();
    let mut j: usize = 0;
    proof {
        assert(views(r@) =~= Seq::<Seq<char>>::empty());
    }
    while j < t.len()
        invariant
            t@ == text@,
            j <= t.len(),
            words_from(t@, 0) == views(r@) + words_from(t@, j as int),
        decreases t.len() - j,
    {
        if is_space_char(t[j]) {
            j += 1;
        } else {
            let mut e: usize = j + 1;
            while e < t.len() && !is_space_char(t[e])
                invariant
                    j < e <= t.len(),
                    word_end(t@, j as int) == word_end(t@, e as int),
                decreases t.len() - e,
            {
                e += 1;
            }
            let item = String::from_str(text.substring_char(j, e));
            proof {
                assert(views(r@.push(item)) =~= views(r@).push(item@));
                assert(views(r@) + words_from(t@, j as int) =~= views(r@).push(item@) + words_from(
                    t@,
                    e as int,
                ));
            }
            r.push(item);
            j = e;
        }
    }
    proof {
        assert(views(r@) + words_from(t@, j as int) =~= views(r@));
    }
    r
}

/// The entries of `l` that are MAC addresses, in order.
pub open spec fn macs_among(l: Seq<Seq<char>>) -> Seq<Seq<char>>
    decreases l.len(),
{
    if l.len() == 0 {
        Seq::empty()
    } else if is_mac(l.last()) {
        macs_among(l.drop_last()).push(l.last())
    } else {
        macs_among(l.drop_last())
    }
}

/// The entries of `l` that are not MAC addresses, in order.
pub open spec fn non_macs_among(l: Seq<Seq<char>>) -> Seq<Seq<char>>
    decreases l.len(),
{
    if l.len() == 0 {
        Seq::empty()
    } else if is_mac(l.last()) {
        non_macs_among(l.drop_last())
    } else {
        non_macs_among(l.drop_last()).push(l.last())
    }
}

/// A black-list file read: the addresses it lists, and the words that are
/// no address.
pub struct BlackList {
    pub macs: Vec<String>,
    pub rejected: Vec<String>,
}

/// Reads a black-list file's text: one MAC address per word; the words that
/// are not addresses are set apart, in order, for the operator to see.
pub fn parse_black_list(text: &str) -> (r: BlackList)
    ensures
        views(r.macs@) == macs_among(words(text@)),
        views(r.rejected@) == non_macs_among(words(text@)),
{
    let ws = split_words(text);
    let ghost w = views(ws@);
    let mut macs: Vec<String> = Vec::new();
    let mut rejected: Vec<String> = Vec::new();
    let mut i: usize = 0;
    proof {
        assert(w.take(0) =~= Seq::<Seq<char>>::empty());
        assert(views(macs@) =~= Seq::<Seq<char>>::empty());
        assert(views(rejected@) =~= Seq::<Seq<char>>::empty());
    }
    while i < ws.len()
        invariant
            w == views(ws@),
            i <= ws.len(),
            views(macs@) == macs_among(w.take(i as int)),
            views(rejected@) == non_macs_among(w.take(i as int)),
        decreases ws.len() - i,
    {
        let item = ws[i].clone();
        proof {
            assert(w.take(i + 1).drop_last() =~= w.take(i as int));
            assert(w.take(i + 1).last() == item@);
        }
        if is_mac_address(item.as_str()) {
            proof {
                assert(views(macs@.push(item)) =~= views(macs@).push(item@));
            }
            macs.push(item);
        } else {
            proof {
                assert(views(rejected@.push(item)) =~= views(rejected@).push(item@));
            }
            rejected.push(item);
        }
        i += 1;
    }
    proof {
        assert(w.take(i as int) =~= w);
    }
    BlackList { macs, rejected }
}

} // verus!
