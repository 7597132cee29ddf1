use vstd::prelude::*;
use vstd::std_specs::iter::IteratorSpec;
use vstd::string::StrSliceExecFns;

verus! {

/// The characters of `s`, in order.
pub fn chars_of(s: &str) -> (r: Vec<char>)
    ensures
        r@ == s@,
{
    broadcast use vstd::string::group_string_axioms;
    let mut r: Vec<char> = Vec::new();
    let mut it = s.chars();
    loop
        invariant
            r@ + it.remaining() == s@,
        ensures
            r@ == s@,
        decreases s@.len() - r@.len(),
    {
        match it.next() {
            Some(c) => {
                r.push(c);
            },
            None => {
                proof {
                    assert(r@ =~= s@);
                }
                break;
            },
        }
    }
    r
}

/// `pat` occurs in `t` starting at position `i`.
pub open spec fn occurs_at(t: Seq<char>, pat: Seq<char>, i: int) -> bool {
    0 <= i && i + pat.len() <= t.len() && t.subrange(i, i + pat.len()) == pat
}

/// Tests whether `pat` occurs in `t` at position `i`.
pub fn matches_at(t: &Vec<char>, pat: &Vec<char>, i: usize) -> (r: bool)
    ensures
        r == occurs_at(t@, pat@, i as int),
{
    if i > t.len() || pat.len() > t.len() - i {
        return false;
    }
    let mut k: usize = 0;
    while k < pat.len()
        invariant
            i + pat.len() <= t.len(),
            k <= pat.len(),
            forall|m: int| 0 <= m < k ==> t@[i + m] == pat@[m],
        decreases pat.len() - k,
    {
        if t[i + k] != pat[k] {
            proof {
                assert(t@.subrange(i as int, i + pat.len())[k as int] != pat@[k as int]);
            }
            return false;
        }
        k += 1;
    }
    proof {
        assert(t@.subrange(i as int, i + pat.len()) =~= pat@);
    }
    true
}

/// The login page's marker, the text `login.html`, starts at position `i`
/// of `t`.
pub open spec fn login_marker_at(t: Seq<char>, i: int) -> bool {
    occurs_at(t, "login.html"@, i)
}

/// `t` holds the login page's marker somewhere.
pub open spec fn has_login_marker(t: Seq<char>) -> bool {
    exists|i: int| login_marker_at(t, i)
}

/// Tests whether a page holds the login page's marker, the sign that no
/// session was opened.
pub fn contains_login_marker(text: &str) -> (r: bool)
    ensures
        r == has_login_marker(text@),
{
    let t = chars_of(text);
    let marker = chars_of("login.html");
    proof {
        reveal_strlit("login.html");
    }
    let mut i: usize = 0;
    while i < t.len()
        invariant
            t@ == text@,
            marker@ == "login.html"@,
            marker@.len() == 10,
            i <= t.len(),
            forall|j: int| 0 <= j < i ==> !login_marker_at(t@, j),
        decreases t.len() - i,
    {
        if matches_at(&t, &marker, i) {
            proof {
                assert(login_marker_at(t@, i as int));
            }
            return true;
        }
        i += 1;
    }
    proof {
        assert forall|j: int| !login_marker_at(t@, j) by {
            if 0 <= j < i {
            }
        }
    }
    false
}

/// `t` holds `key` at position `i`, followed by the digit `0` or `1` and a
/// semicolon.
pub open spec fn flag_at(t: Seq<char>, key: Seq<char>, i: int) -> bool {
    &&& occurs_at(t, key, i)
    &&& i + key.len() + 2 <= t.len()
    &&& (t[i + key.len()] == '0' || t[i + key.len()] == '1')
    &&& t[i + key.len() + 1] == ';'
}

/// The flag of the leftmost `key` followed by a digit and a semicolon, at
/// or after position `j`: `true` for `1`, `false` for `0`; `None` where
/// there is no such occurrence.
pub open spec fn first_flag_from(t: Seq<char>, key: Seq<char>, j: int) -> Option<bool>
    decreases t.len() - j,
{
    if j < 0 || j >= t.len() {
        None
    } else if flag_at(t, key, j) {
        Some(t[j + key.len()] == '1')
    } else {
        first_flag_from(t, key, j + 1)
    }
}

/// The flag of the leftmost `key=0;` or `key=1;` in `t`.
pub open spec fn first_flag(t: Seq<char>, key: Seq<char>) -> Option<bool> {
    first_flag_from(t, key, 0)
}

/// Reads the flag set by the leftmost occurrence of `key` followed by `0;`
/// or `1;`.
pub fn find_flag(text: &str, key: &str) -> (r: Option<bool>)
    ensures
        r == first_flag(text@, key@),
{
    let t = chars_of(text);
    let k = chars_of(key);
    let mut j: usize = 0;
    while j < t.len()
        invariant
            t@ == text@,
            k@ == key@,
            j <= t.len(),
            first_flag_from(t@, k@, 0) == first_flag_from(t@, k@, j as int),
        decreases t.len() - j,
    {
        if matches_at(&t, &k, j) && t.len() - j - k.len() >= 2 {
            let d = t[j + k.len()];
            if (d == '0' || d == '1') && t[j + k.len() + 1] == ';' {
                return Some(d == '1');
            }
        }
        j += 1;
    }
    None
}

/// The views of a sequence of strings.
pub open spec fn views(v: Seq<String>) -> Seq<Seq<char>> {
    v.map_values(|s: String| s@)
}

/// The first position at or after `k` where `t` holds `c`; `t.len()` where
/// there is none.
pub open spec fn index_of_from(t: Seq<char>, c: char, k: int) -> int
    decreases t.len() - k,
{
    if k >= t.len() {
        t.len() as int
    } else if k >= 0 && t[k] == c {
        k
    } else {
        index_of_from(t, c, k + 1)
    }
}

/// Finds the first position at or after `k` that holds `c`.
fn find_char(t: &Vec<char>, c: char, k: usize) -> (r: usize)
    requires
        k <= t.len(),
    ensures
        r == index_of_from(t@, c, k as int),
        k <= r <= t.len(),
{
    let mut i: usize = k;
    while i < t.len()
        invariant
            k <= i <= t.len(),
            index_of_from(t@, c, k as int) == index_of_from(t@, c, i as int),
        decreases t.len() - i,
    {
        if t[i] == c {
            return i;
        }
        i += 1;
    }
    i
}

/// The quoted entries `Mac:"..."` of `t` at or after position `j`, in
/// order: each is the non-empty text up to the next double quote, and the
/// search goes on after that quote.
pub open spec fn quoted_from(t: Seq<char>, j: int) -> Seq<Seq<char>>
    decreases t.len() - j,
{
    if j < 0 || j >= t.len() {
        Seq::empty()
    } else {
        let q = index_of_from(t, '"', j + 5);
        if occurs_at(t, "Mac:\""@, j) && j + 5 < q && q < t.len() {
            seq![t.subrange(j + 5, q)] + quoted_from(t, q + 1)
        } else {
            quoted_from(t, j + 1)
        }
    }
}

/// Pushing a string onto a vector pushes its view onto the views.
proof fn lemma_views_push(v: Seq<String>, s: String)
    ensures
        views(v.push(s)) == views(v).push(s@),
{
    assert(views(v.push(s)) =~= views(v).push(s@));
}

/// Collects the addresses quoted as `Mac:"..."` in a page, in document order.
pub fn quoted_macs(text: &str) -> (r: Vec<String>)
    ensures
        views(r@) == quoted_from(text@, 0),
{
    let t = chars_of(text);
    let pre = chars_of("Mac:\"");
    proof {
        reveal_strlit("Mac:\"");
    }
    let mut r: Vec<String> = Vec::new();
    let mut j: usize = 0;
    proof {
        assert(views(r@) =~= Seq::<Seq<char>>::empty());
    }
    while j < t.len()
        invariant
            t@ == text@,
            pre@ == "Mac:\""@,
            pre@.len() == 5,
            j <= t.len(),
            quoted_from(t@, 0) == views(r@) + quoted_from(t@, j as int),
        decreases t.len() - j,
    {
        if matches_at(&t, &pre, j) {
            let q = find_char(&t, '"', j + 5);
            if j + 5 < q && q < t.len() {
                let item = String::from_str(text.substring_char(j + 5, q));
                proof {
                    lemma_views_push(r@, item);
                    assert(views(r@) + quoted_from(t@, j as int) =~= views(r@).push(item@)
                        + quoted_from(t@, q + 1));
                }
                r.push(item);
                j = q + 1;
                continue;
            }
        }
        j += 1;
    }
    proof {
        assert(views(r@) + quoted_from(t@, j as int) =~= views(r@));
    }
    r
}

/// `c` is a decimal digit of some script: Unicode's general category `Nd`,
/// as Unicode 14.0 lists it, which is what `\d` matches in a page pattern.
pub open spec fn is_digit(c: char) -> bool {
    let n = c as u32;
    (0x30 <= n && n <= 0x39) || (0x660 <= n && n <= 0x669) || (0x6f0 <= n && n <= 0x6f9) ||
        (0x7c0 <= n && n <= 0x7c9) || (0x966 <= n && n <= 0x96f) ||
        (0x9e6 <= n && n <= 0x9ef) || (0xa66 <= n && n <= 0xa6f) ||
        (0xae6 <= n && n <= 0xaef) || (0xb66 <= n && n <= 0xb6f) ||
        (0xbe6 <= n && n <= 0xbef) || (0xc66 <= n && n <= 0xc6f) ||
        (0xce6 <= n && n <= 0xcef) || (0xd66 <= n && n <= 0xd6f) ||
        (0xde6 <= n && n <= 0xdef) || (0xe50 <= n && n <= 0xe59) ||
        (0xed0 <= n && n <= 0xed9) || (0xf20 <= n && n <= 0xf29) ||
        (0x1040 <= n && n <= 0x1049) || (0x1090 <= n && n <= 0x1099) ||
        (0x17e0 <= n && n <= 0x17e9) || (0x1810 <= n && n <= 0x1819) ||
        (0x1946 <= n && n <= 0x194f) || (0x19d0 <= n && n <= 0x19d9) ||
        (0x1a80 <= n && n <= 0x1a89) || (0x1a90 <= n && n <= 0x1a99) ||
        (0x1b50 <= n && n <= 0x1b59) || (0x1bb0 <= n && n <= 0x1bb9) ||
        (0x1c40 <= n && n <= 0x1c49) || (0x1c50 <= n && n <= 0x1c59) ||
        (0xa620 <= n && n <= 0xa629) || (0xa8d0 <= n && n <= 0xa8d9) ||
        (0xa900 <= n && n <= 0xa909) || (0xa9d0 <= n && n <= 0xa9d9) ||
        (0xa9f0 <= n && n <= 0xa9f9) || (0xaa50 <= n && n <= 0xaa59) ||
        (0xabf0 <= n && n <= 0xabf9) || (0xff10 <= n && n <= 0xff19) ||
        (0x104a0 <= n && n <= 0x104a9) || (0x10d30 <= n && n <= 0x10d39) ||
        (0x11066 <= n && n <= 0x1106f) || (0x110f0 <= n && n <= 0x110f9) ||
        (0x11136 <= n && n <= 0x1113f) || (0x111d0 <= n && n <= 0x111d9) ||
        (0x112f0 <= n && n <= 0x112f9) || (0x11450 <= n && n <= 0x11459) ||
        (0x114d0 <= n && n <= 0x114d9) || (0x11650 <= n && n <= 0x11659) ||
        (0x116c0 <= n && n <= 0x116c9) || (0x11730 <= n && n <= 0x11739) ||
        (0x118e0 <= n && n <= 0x118e9) || (0x11950 <= n && n <= 0x11959) ||
        (0x11c50 <= n && n <= 0x11c59) || (0x11d50 <= n && n <= 0x11d59) ||
        (0x11da0 <= n && n <= 0x11da9) || (0x16a60 <= n && n <= 0x16a69) ||
        (0x16ac0 <= n && n <= 0x16ac9) || (0x16b50 <= n && n <= 0x16b59) ||
        (0x1d7ce <= n && n <= 0x1d7ff) || (0x1e140 <= n && n <= 0x1e149) ||
        (0x1e2f0 <= n && n <= 0x1e2f9) || (0x1e950 <= n && n <= 0x1e959) ||
        (0x1fbf0 <= n && n <= 0x1fbf9)
}

/// Tests whether `c` is a decimal digit of some script.
fn is_digit_char(c: char) -> (r: bool)
    ensures
        r == is_digit(c),
{
    let n = c as u32;
    (0x30 <= n && n <= 0x39) || (0x660 <= n && n <= 0x669) || (0x6f0 <= n && n <= 0x6f9) ||
        (0x7c0 <= n && n <= 0x7c9) || (0x966 <= n && n <= 0x96f) ||
        (0x9e6 <= n && n <= 0x9ef) || (0xa66 <= n && n <= 0xa6f) ||
        (0xae6 <= n && n <= 0xaef) || (0xb66 <= n && n <= 0xb6f) ||
        (0xbe6 <= n && n <= 0xbef) || (0xc66 <= n && n <= 0xc6f) ||
        (0xce6 <= n && n <= 0xcef) || (0xd66 <= n && n <= 0xd6f) ||
        (0xde6 <= n && n <= 0xdef) || (0xe50 <= n && n <= 0xe59) ||
        (0xed0 <= n && n <= 0xed9) || (0xf20 <= n && n <= 0xf29) ||
        (0x1040 <= n && n <= 0x1049) || (0x1090 <= n && n <= 0x1099) ||
        (0x17e0 <= n && n <= 0x17e9) || (0x1810 <= n && n <= 0x1819) ||
        (0x1946 <= n && n <= 0x194f) || (0x19d0 <= n && n <= 0x19d9) ||
        (0x1a80 <= n && n <= 0x1a89) || (0x1a90 <= n && n <= 0x1a99) ||
        (0x1b50 <= n && n <= 0x1b59) || (0x1bb0 <= n && n <= 0x1bb9) ||
        (0x1c40 <= n && n <= 0x1c49) || (0x1c50 <= n && n <= 0x1c59) ||
        (0xa620 <= n && n <= 0xa629) || (0xa8d0 <= n && n <= 0xa8d9) ||
        (0xa900 <= n && n <= 0xa909) || (0xa9d0 <= n && n <= 0xa9d9) ||
        (0xa9f0 <= n && n <= 0xa9f9) || (0xaa50 <= n && n <= 0xaa59) ||
        (0xabf0 <= n && n <= 0xabf9) || (0xff10 <= n && n <= 0xff19) ||
        (0x104a0 <= n && n <= 0x104a9) || (0x10d30 <= n && n <= 0x10d39) ||
        (0x11066 <= n && n <= 0x1106f) || (0x110f0 <= n && n <= 0x110f9) ||
        (0x11136 <= n && n <= 0x1113f) || (0x111d0 <= n && n <= 0x111d9) ||
        (0x112f0 <= n && n <= 0x112f9) || (0x11450 <= n && n <= 0x11459) ||
        (0x114d0 <= n && n <= 0x114d9) || (0x11650 <= n && n <= 0x11659) ||
        (0x116c0 <= n && n <= 0x116c9) || (0x11730 <= n && n <= 0x11739) ||
        (0x118e0 <= n && n <= 0x118e9) || (0x11950 <= n && n <= 0x11959) ||
        (0x11c50 <= n && n <= 0x11c59) || (0x11d50 <= n && n <= 0x11d59) ||
        (0x11da0 <= n && n <= 0x11da9) || (0x16a60 <= n && n <= 0x16a69) ||
        (0x16ac0 <= n && n <= 0x16ac9) || (0x16b50 <= n && n <= 0x16b59) ||
        (0x1d7ce <= n && n <= 0x1d7ff) || (0x1e140 <= n && n <= 0x1e149) ||
        (0x1e2f0 <= n && n <= 0x1e2f9) || (0x1e950 <= n && n <= 0x1e959) ||
        (0x1fbf0 <= n && n <= 0x1fbf9)
}

/// The end of the run of digits of `t` that starts at `k`.
pub open spec fn digits_end(t: Seq<char>, k: int) -> int
    decreases t.len() - k,
{
    if k < 0 || k >= t.len() {
        k
    } else if is_digit(t[k]) {
        digits_end(t, k + 1)
    } else {
        k
    }
}

fn skip_digits(t: &Vec<char>, k: usize) -> (r: usize)
    requires
        k <= t.len(),
    ensures
        r == digits_end(t@, k as int),
        k <= r <= t.len(),
{
    let mut i: usize = k;
    while i < t.len() && is_digit_char(t[i])
        invariant
            k <= i <= t.len(),
            digits_end(t@, k as int) == digits_end(t@, i as int),
        decreases t.len() - i,
    {
        i += 1;
    }
    i
}

/// The records `client_list[<digits>]='...';` of `t` at or after position
/// `j`, in order: each is the non-empty text between the quotes, and the
/// search goes on after the semicolon.
pub open spec fn client_entries_from(t: Seq<char>, j: int) -> Seq<Seq<char>>
    decreases t.len() - j,
{
    if j < 0 || j >= t.len() {
        Seq::empty()
    } else {
        let k = digits_end(t, j + 12);
        let q = index_of_from(t, '\'', k + 3);
        if occurs_at(t, "client_list["@, j) && j + 12 < k && occurs_at(t, "]='"@, k) && k + 3 < q
            && q + 1 < t.len() && t[q + 1] == ';' {
            seq![t.subrange(k + 3, q)] + client_entries_from(t, q + 2)
        } else {
            client_entries_from(t, j + 1)
        }
    }
}

/// Collects the quoted text of each `client_list[n]='...';` record of a
/// page, in document order.
pub fn client_entries(text: &str) -> (r: Vec<String>)
    ensures
        views(r@) == client_entries_from(text@, 0),
{
    let t = chars_of(text);
    let pre = chars_of("client_list[");
    let mid = chars_of("]='");
    proof {
        reveal_strlit("client_list[");
        reveal_strlit("]='");
    }
    let mut r: Vec<String> = Vec::new();
    let mut j: usize = 0;
    proof {
        assert(views(r@) =~= Seq::<Seq<char>>::empty());
    }
    while j < t.len()
        invariant
            t@ == text@,
            pre@ == "client_list["@,
            mid@ == "]='"@,
            pre@.len() == 12,
            mid@.len() == 3,
            j <= t.len(),
            client_entries_from(t@, 0) == views(r@) + client_entries_from(t@, j as int),
        decreases t.len() - j,
    {
        if matches_at(&t, &pre, j) {
            let k = skip_digits(&t, j + 12);
            if j + 12 < k && matches_at(&t, &mid, k) {
                let q = find_char(&t, '\'', k + 3);
                if k + 3 < q && q < t.len() - 1 && t[q + 1] == ';' {
                    let item = String::from_str(text.substring_char(k + 3, q));
                    proof {
                        lemma_views_push(r@, item);
                        assert(views(r@) + client_entries_from(t@, j as int) =~= views(r@).push(
                            item@,
                        ) + client_entries_from(t@, q + 2));
                    }
                    r.push(item);
                    j = q + 2;
                    continue;
                }
            }
        }
        j += 1;
    }
    proof {
        assert(views(r@) + client_entries_from(t@, j as int) =~= views(r@));
    }
    r
}

/// The fields of `s` from position `j` on, as `|` separates them; the last
/// field runs to the end, so a text without `|` is one field.
pub open spec fn fields_from(s: Seq<char>, j: int) -> Seq<Seq<char>>
    decreases s.len() - j,
{
    let i = index_of_from(s, '|', j);
    if j < 0 || j > s.len() {
        Seq::empty()
    } else if j <= i && i < s.len() {
        seq![s.subrange(j, i)] + fields_from(s, i + 1)
    } else {
        seq![s.subrange(j, s.len() as int)]
    }
}

/// The fields of `s` as `|` separates them.
pub open spec fn fields(s: Seq<char>) -> Seq<Seq<char>> {
    fields_from(s, 0)
}

/// Splits a record into its `|`-separated fields.
pub fn split_fields(s: &str) -> (r: Vec<String>)
    ensures
        views(r@) == fields(s@),
{
    let t = chars_of(s);
    let mut r: Vec<String> = Vec::new();
    let mut j: usize = 0;
    proof {
        assert(views(r@) =~= Seq::<Seq<char>>::empty());
    }
    loop
        invariant_except_break
            fields_from(t@, 0) == views(r@) + fields_from(t@, j as int),
        invariant
            t@ == s@,
            j <= t.len(),
        ensures
            views(r@) == fields(s@),
        decreases t.len() - j,
    {
        let i = find_char(&t, '|', j);
        let item = String::from_str(s.substring_char(j, i));
        proof {
            lemma_views_push(r@, item);
        }
        if i < t.len() {
            proof {
                assert(views(r@) + fields_from(t@, j as int) =~= views(r@).push(item@)
                    + fields_from(t@, i + 1));
            }
            r.push(item);
            j = i + 1;
        } else {
            proof {
                assert(views(r@) + fields_from(t@, j as int) =~= views(r@).push(item@));
            }
            r.push(item);
            break;
        }
    }
    r
}

} // verus!
