use vstd::prelude::*;

use crate::scrape::{chars_of, views};

verus! {

/// `c` is a hexadecimal digit, of either case.
pub open spec fn is_hex(c: char) -> bool {
    ('0' <= c && c <= '9') || ('a' <= c && c <= 'f') || ('A' <= c && c <= 'F')
}

/// `s` is six groups of two hexadecimal digits joined by colons, and
/// nothing else.
pub open spec fn is_mac(s: Seq<char>) -> bool {
    &&& s.len() == 17
    &&& forall|i: int|
        0 <= i < 17 ==> if i % 3 == 2 {
            s[i] == ':'
        } else {
            is_hex(#[trigger] s[i])
        }
}

/// Tests whether `s` is a MAC address written as six colon-separated pairs
/// of hexadecimal digits; the case of the digits is free.
pub fn is_mac_address(s: &str) -> (r: bool)
    ensures
        r == is_mac(s@),
{
    let t = chars_of(s);
    if t.len() != 17 {
        return false;
    }
    let mut i: usize = 0;
    while i < 17
        invariant
            t@ == s@,
            t.len() == 17,
            i <= 17,
            forall|k: int|
                0 <= k < i ==> if k % 3 == 2 {
                    t@[k] == ':'
                } else {
                    is_hex(#[trigger] t@[k])
                },
        decreases 17 - i,
    {
        let c = t[i];
        let ok = if i % 3 == 2 {
            c == ':'
        } else {
            ('0' <= c && c <= '9') || ('a' <= c && c <= 'f') || ('A' <= c && c <= 'F')
        };
        if !ok {
            proof {
                assert(!(if i % 3 == 2 {
                    t@[i as int] == ':'
                } else {
                    is_hex(t@[i as int])
                }));
            }
            return false;
        }
        i += 1;
    }
    true
}

/// `a` comes strictly before `b` in lexicographic order of characters,
/// which is the order of `str` (UTF-8 keeps the order of code points).
pub open spec fn lex_lt(a: Seq<char>, b: Seq<char>) -> bool
    decreases a.len(),
{
    if b.len() == 0 {
        false
    } else if a.len() == 0 {
        true
    } else if a[0] != b[0] {
        a[0] < b[0]
    } else {
        lex_lt(a.drop_first(), b.drop_first())
    }
}

/// No sequence comes before itself.
pub proof fn lemma_lex_irreflexive(a: Seq<char>)
    ensures
        !lex_lt(a, a),
    decreases a.len(),
{
    if a.len() > 0 {
        lemma_lex_irreflexive(a.drop_first());
    }
}

/// The order is transitive.
pub proof fn lemma_lex_transitive(a: Seq<char>, b: Seq<char>, c: Seq<char>)
    requires
        lex_lt(a, b),
        lex_lt(b, c),
    ensures
        lex_lt(a, c),
    decreases a.len(),
{
    if a.len() > 0 && b.len() > 0 && c.len() > 0 && a[0] == b[0] && b[0] == c[0] {
        lemma_lex_transitive(a.drop_first(), b.drop_first(), c.drop_first());
    }
}

/// Two different sequences are ordered one way or the other, and never both.
pub proof fn lemma_lex_total(a: Seq<char>, b: Seq<char>)
    ensures
        a != b ==> lex_lt(a, b) || lex_lt(b, a),
        !(lex_lt(a, b) && lex_lt(b, a)),
    decreases a.len(),
{
    if a.len() > 0 && b.len() > 0 && a[0] == b[0] {
        lemma_lex_total(a.drop_first(), b.drop_first());
        if a != b {
            assert(a =~= seq![a[0]] + a.drop_first());
            assert(b =~= seq![b[0]] + b.drop_first());
        }
    } else if a.len() == 0 && b.len() == 0 {
        assert(a =~= b);
    }
}

/// Compares two character sequences in lexicographic order.
fn less_than(a: &Vec<char>, b: &Vec<char>) -> (r: bool)
    ensures
        r == lex_lt(a@, b@),
{
    let mut i: usize = 0;
    proof {
        assert(a@.skip(0) =~= a@);
        assert(b@.skip(0) =~= b@);
    }
    while i < a.len() && i < b.len() && a[i] == b[i]
        invariant
            i <= a.len(),
            i <= b.len(),
            lex_lt(a@, b@) == lex_lt(a@.skip(i as int), b@.skip(i as int)),
        decreases a.len() - i,
    {
        proof {
            assert(a@.skip(i as int).drop_first() =~= a@.skip(i + 1));
            assert(b@.skip(i as int).drop_first() =~= b@.skip(i + 1));
        }
        i += 1;
    }
    if i == b.len() {
        false
    } else if i == a.len() {
        true
    } else {
        a[i] < b[i]
    }
}

/// Each entry of `v` comes strictly before every later one, so no entry
/// is repeated.
pub open spec fn strictly_sorted(v: Seq<Seq<char>>) -> bool {
    forall|i: int, j: int| 0 <= i < j < v.len() ==> lex_lt(#[trigger] v[i], #[trigger] v[j])
}

/// Adds `x` to a strictly sorted vector unless it is already there.
fn insert_unique(r: &mut Vec<String>, x: String)
    requires
        strictly_sorted(views(old(r)@)),
    ensures
        strictly_sorted(views(final(r)@)),
        forall|s: Seq<char>|
            views(final(r)@).contains(s) <==> (views(old(r)@).contains(s) || s == x@),
{
    let xc = chars_of(x.as_str());
    let mut p: usize = 0;
    while p < r.len() && less_than(&chars_of(r[p].as_str()), &xc)
        invariant
            xc@ == x@,
            p <= r.len(),
            forall|i: int| 0 <= i < p ==> lex_lt(#[trigger] r@[i]@, x@),
        decreases r.len() - p,
    {
        p += 1;
    }
    let ghost v = views(r@);
    if p < r.len() && !less_than(&xc, &chars_of(r[p].as_str())) {
        proof {
            lemma_lex_total(r@[p as int]@, x@);
            assert(v[p as int] == x@);
            assert forall|s: Seq<char>| v.contains(s) <==> (v.contains(s) || s == x@) by {
                if s == x@ {
                    assert(v[p as int] == s);
                }
            }
        }
        return;
    }
    proof {
        assert forall|i: int| p <= i < r.len() implies lex_lt(x@, #[trigger] v[i]) by {
            lemma_lex_total(r@[p as int]@, x@);
            if i > p {
                lemma_lex_transitive(x@, v[p as int], v[i]);
            }
        }
    }
    r.insert(p, x);
    proof {
        let w = views(r@);
        assert(w =~= v.insert(p as int, x@));
        assert forall|i: int, j: int| 0 <= i < j < w.len() implies lex_lt(
            #[trigger] w[i],
            #[trigger] w[j],
        ) by {
            if j < p {
            } else if j == p {
            } else if i < p {
                lemma_lex_transitive(w[i], x@, w[j]);
            } else if i == p {
            } else {
                assert(w[i] == v[i - 1] && w[j] == v[j - 1]);
            }
        }
        assert forall|s: Seq<char>| w.contains(s) <==> (v.contains(s) || s == x@) by {
            if w.contains(s) {
                let k = choose|k: int| 0 <= k < w.len() && w[k] == s;
                if k < p {
                    assert(v[k] == s);
                } else if k > p {
                    assert(v[k - 1] == s);
                }
            }
            if v.contains(s) {
                let k = choose|k: int| 0 <= k < v.len() && v[k] == s;
                if k < p {
                    assert(w[k] == s);
                } else {
                    assert(w[k + 1] == s);
                }
            }
            if s == x@ {
                assert(w[p as int] == s);
            }
        }
    }
}

proof fn lemma_push_contains(v: Seq<Seq<char>>, x: Seq<char>)
    ensures
        forall|s: Seq<char>| v.push(x).contains(s) <==> (v.contains(s) || s == x),
{
    assert forall|s: Seq<char>| v.push(x).contains(s) <==> (v.contains(s) || s == x) by {
        if v.push(x).contains(s) {
            let k = choose|k: int| 0 <= k < v.push(x).len() && v.push(x)[k] == s;
            if k < v.len() {
                assert(v[k] == s);
            }
        }
        if v.contains(s) {
            let k = choose|k: int| 0 <= k < v.len() && v[k] == s;
            assert(v.push(x)[k] == s);
        }
        if s == x {
            assert(v.push(x)[v.len() as int] == s);
        }
    }
}

/// Sorts `macs` and drops repeated entries. Entries are compared exactly, so
/// two spellings of one address that differ in case both stay.
pub fn sort_dedup(macs: &Vec<String>) -> (r: Vec<String>)
    ensures
        strictly_sorted(views(r@)),
        forall|s: Seq<char>| views(r@).contains(s) <==> views(macs@).contains(s),
{
    let mut r: Vec<String> = Vec::new();
    let mut i: usize = 0;
    while i < macs.len()
        invariant
            i <= macs.len(),
            strictly_sorted(views(r@)),
            forall|s: Seq<char>|
                views(r@).contains(s) <==> views(macs@.take(i as int)).contains(s),
        decreases macs.len() - i,
    {
        let x = macs[i].clone();
        proof {
            assert(views(macs@.take(i + 1)) =~= views(macs@.take(i as int)).push(macs@[i as int]@));
            lemma_push_contains(views(macs@.take(i as int)), macs@[i as int]@);
        }
        insert_unique(&mut r, x);
        i += 1;
    }
    proof {
        assert(macs@.take(i as int) =~= macs@);
    }
    r
}

/// Two strictly sorted lists that hold the same entries are the same list:
/// sorting and dropping repeats gives one result for a given set of
/// addresses, whatever their order and repeats in the input.
pub proof fn lemma_sorted_unique(a: Seq<Seq<char>>, b: Seq<Seq<char>>)
    requires
        strictly_sorted(a),
        strictly_sorted(b),
        forall|s: Seq<char>| a.contains(s) <==> b.contains(s),
    ensures
        a == b,
    decreases a.len(),
{
    if a.len() == 0 {
        if b.len() > 0 {
            assert(b.contains(b[0]));
        }
        assert(a =~= b);
    } else {
        assert(a.contains(a[0]));
        assert(b.len() > 0);
        assert(b.contains(b[0]));
        let k = choose|k: int| 0 <= k < b.len() && b[k] == a[0];
        let j = choose|j: int| 0 <= j < a.len() && a[j] == b[0];
        if k > 0 {
            if j > 0 {
                lemma_lex_total(a[0], a[j]);
            } else {
                lemma_lex_irreflexive(b[0]);
            }
        }
        assert(a[0] == b[0]);
        let a1 = a.drop_first();
        let b1 = b.drop_first();
        assert forall|i: int, m: int| 0 <= i < m < a1.len() implies lex_lt(
            #[trigger] a1[i],
            #[trigger] a1[m],
        ) by {
            assert(a1[i] == a[i + 1] && a1[m] == a[m + 1]);
        }
        assert forall|i: int, m: int| 0 <= i < m < b1.len() implies lex_lt(
            #[trigger] b1[i],
            #[trigger] b1[m],
        ) by {
            assert(b1[i] == b[i + 1] && b1[m] == b[m + 1]);
        }
        assert forall|s: Seq<char>| a1.contains(s) <==> b1.contains(s) by {
            if a1.contains(s) {
                let i = choose|i: int| 0 <= i < a1.len() && a1[i] == s;
                assert(a[i + 1] == s);
                assert(lex_lt(a[0], a[i + 1]));
                lemma_lex_irreflexive(a[0]);
                assert(a.contains(s));
                let m = choose|m: int| 0 <= m < b.len() && b[m] == s;
                assert(m != 0);
                assert(b1[m - 1] == s);
            }
            if b1.contains(s) {
                let i = choose|i: int| 0 <= i < b1.len() && b1[i] == s;
                assert(b[i + 1] == s);
                assert(lex_lt(b[0], b[i + 1]));
                lemma_lex_irreflexive(b[0]);
                assert(b.contains(s));
                let m = choose|m: int| 0 <= m < a.len() && a[m] == s;
                assert(m != 0);
                assert(a1[m - 1] == s);
            }
        }
        lemma_sorted_unique(a1, b1);
        assert(a =~= seq![a[0]] + a1);
        assert(b =~= seq![b[0]] + b1);
    }
}

} // verus!
