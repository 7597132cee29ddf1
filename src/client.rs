use vstd::prelude::*;

verus! {

/// The header lines that follow the request line, up to and including the
/// blank line that ends the header block.
pub const HEADER_TAIL: &'static str = " HTTP/1.1\r\nHost: 192.168.1.1\r\nAccept: */*\r\nUser-Agent: Mozilla/5.0 (Windows NT 10.0; Win64; x64) AppleWebKit/537.36 (KHTML, like Gecko) Chrome/60.0.3112.113 Safari/537.36\r\nConnection: close\r\n\r\n";

pub open spec fn header_tail() -> Seq<char> {
    HEADER_TAIL@
}

/// The literal text of a GET request for `path`: the request line, the
/// fixed headers and the blank line, with no body.
pub open spec fn get_text(path: Seq<char>) -> Seq<char> {
    "GET "@ + path + header_tail()
}

/// The literal text of a POST request for `path`: the same headers as a
/// GET, no length or type header, and `body` appended verbatim.
pub open spec fn post_text(path: Seq<char>, body: Seq<char>) -> Seq<char> {
    "POST "@ + path + header_tail() + body
}

/// The request that `create_request_header` builds: a GET where the body is
/// empty, else a POST.
pub open spec fn request_text(path: Seq<char>, body: Seq<char>) -> Seq<char> {
    if body.len() == 0 {
        get_text(path)
    } else {
        post_text(path, body)
    }
}

/// Writes the request line for `verb` and `path`, the fixed headers, and
/// `body` after them.
fn build(verb: &str, path: &str, body: &str) -> (s: String)
    ensures
        s@ == verb@ + path@ + header_tail() + body@,
{
    let mut s = String::from_str(verb);
    s.append(path);
    s.append(HEADER_TAIL);
    s.append(body);
    s
}

/// Builds the request for `r` with body `d`; the verb is POST exactly when
/// the body is not empty.
pub fn create_request_header(r: &str, d: &str) -> (s: String)
    ensures
        s@ == request_text(r@, d@),
{
    if d.is_empty() {
        get(r)
    } else {
        post(r, d)
    }
}

/// The GET request for `request_string`.
pub fn get(request_string: &str) -> (s: String)
    ensures
        s@ == get_text(request_string@),
{
    let s = build("GET ", request_string, "");
    proof {
        reveal_strlit("");
        assert(s@ =~= get_text(request_string@));
    }
    s
}

/// The POST request that sends `data` to `request_string`, whatever `data`
/// holds, the empty body included.
pub fn post(request_string: &str, data: &str) -> (s: String)
    ensures
        s@ == post_text(request_string@, data@),
{
    build("POST ", request_string, data)
}

/// The blank line, `\r\n\r\n`, that ends a header block starts at
/// position `i` of `t`.
pub open spec fn blank_line_at(t: Seq<char>, i: int) -> bool {
    0 <= i && i + 4 <= t.len() && t[i] == '\r' && t[i + 1] == '\n' && t[i + 2] == '\r' && t[i
        + 3] == '\n'
}

/// The fixed headers end in a blank line and hold no other, and they start
/// with a space.
proof fn lemma_header_tail_blank_line()
    ensures
        header_tail().len() > 4,
        header_tail()[0] == ' ',
        blank_line_at(header_tail(), header_tail().len() - 4),
        forall|i: int| 0 <= i < header_tail().len() - 4 ==> !blank_line_at(header_tail(), i),
{
    reveal_strlit(" HTTP/1.1\r\nHost: 192.168.1.1\r\nAccept: */*\r\nUser-Agent: Mozilla/5.0 (Windows NT 10.0; Win64; x64) AppleWebKit/537.36 (KHTML, like Gecko) Chrome/60.0.3112.113 Safari/537.36\r\nConnection: close\r\n\r\n");
}

/// In a request line made of `verb`, `path` and the fixed headers, and
/// followed by `body`, the first blank line is the one that ends the fixed
/// headers, where neither the verb nor the path brings one.
proof fn lemma_first_blank_line(verb: Seq<char>, path: Seq<char>, body: Seq<char>)
    requires
        forall|k: int| 0 <= k < verb.len() ==> verb[k] != '\r',
        forall|i: int| !blank_line_at(path, i),
    ensures
        blank_line_at(
            verb + path + header_tail() + body,
            verb.len() + path.len() + header_tail().len() - 4,
        ),
        forall|i: int|
            0 <= i < verb.len() + path.len() + header_tail().len() - 4 ==> !blank_line_at(
                verb + path + header_tail() + body,
                i,
            ),
{
    lemma_header_tail_blank_line();
    let tail = header_tail();
    let t = verb + path + tail + body;
    let a = verb.len() as int;
    let b = a + path.len();
    let h = b + tail.len();
    assert forall|k: int| 0 <= k < h implies t[k] == if k < a {
        verb[k]
    } else if k < b {
        path[k - a]
    } else {
        tail[k - b]
    } by {}
    assert(blank_line_at(tail, tail.len() - 4));
    assert forall|i: int| 0 <= i < h - 4 implies !blank_line_at(t, i) by {
        if blank_line_at(t, i) {
            if i < a {
                assert(t[i] == verb[i]);
            } else if i + 4 <= b {
                assert(blank_line_at(path, i - a));
            } else if i < b {
                assert(t[b] == ' ');
            } else {
                assert(blank_line_at(tail, i - b));
            }
        }
    }
}

/// A GET request's header block ends with the request itself: its first
/// blank line is its last four characters, so it has no body. This holds
/// for every path that holds no blank line of its own.
pub proof fn lemma_get_header_block(path: Seq<char>)
    requires
        forall|i: int| !blank_line_at(path, i),
    ensures
        blank_line_at(get_text(path), get_text(path).len() - 4),
        forall|i: int| 0 <= i < get_text(path).len() - 4 ==> !blank_line_at(get_text(path), i),
{
    reveal_strlit("GET ");
    lemma_first_blank_line("GET "@, path, Seq::empty());
    assert("GET "@ + path + header_tail() + Seq::empty() =~= get_text(path));
}

/// A POST request's header block, up to its first blank line, is the GET
/// request's block for the same path with the verb changed, so it has the
/// same headers and no more; what follows that blank line is exactly the
/// body. This holds for every body and every path that holds no blank line
/// of its own.
pub proof fn lemma_post_header_block(path: Seq<char>, body: Seq<char>)
    requires
        forall|i: int| !blank_line_at(path, i),
    ensures
        ({
            let t = post_text(path, body);
            let g = get_text(path);
            let h = 5 + path.len() + header_tail().len() as int;
            &&& blank_line_at(t, h - 4)
            &&& forall|i: int| 0 <= i < h - 4 ==> !blank_line_at(t, i)
            &&& t.subrange(0, 5) == "POST "@
            &&& t.subrange(5, h - 4) == g.subrange(4, g.len() - 4)
            &&& t.subrange(h, t.len() as int) == body
        }),
{
    reveal_strlit("POST ");
    reveal_strlit("GET ");
    lemma_first_blank_line("POST "@, path, body);
    let t = post_text(path, body);
    let g = get_text(path);
    let h = 5 + path.len() + header_tail().len() as int;
    assert(t.subrange(0, 5) =~= "POST "@);
    assert(t.subrange(5, h - 4) =~= g.subrange(4, g.len() - 4));
    assert(t.subrange(h, t.len() as int) =~= body);
}

} // verus!
