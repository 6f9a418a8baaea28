use vstd::prelude::*;
use vstd::string::*;
use vstd::utf8::*;

use crate::locator::{before_char, cut_before};
use crate::media::mime_of;
use crate::serve::{Response, ResponseView};
use crate::text::{chars_match_at, chars_of};

verus! {

// ---------------------------------------------------------------------------
// The request line
// ---------------------------------------------------------------------------

/// The target of a request whose first line reads `GET <target> <version>`;
/// `None` for any other method or a line without two spaces.
pub open spec fn request_target(req: Seq<char>) -> Option<Seq<char>> {
    let line = before_char(req, '\n');
    let method = before_char(line, ' ');
    if method.len() == line.len() {
        None
    } else {
        let after = line.subrange(method.len() + 1 as int, line.len() as int);
        let target = before_char(after, ' ');
        if target.len() == after.len() || method != "GET"@ {
            None
        } else {
            Some(target)
        }
    }
}

/// The target of a `GET` request, read from its first line.
pub fn parse_request_target(req: &str) -> (r: Option<String>)
    ensures
        match r {
            Some(t) => request_target(req@) == Some(t@),
            None => request_target(req@) is None,
        },
{
    let cs = chars_of(req);
    let n = cs.len();
    let e = cut_before(&cs, 0, n, '\n');
    assert(cs@.subrange(0, n as int) =~= req@);
    let ghost line = cs@.subrange(0, e as int);
    let m = cut_before(&cs, 0, e, ' ');
    if m == e {
        return None;
    }
    let t = cut_before(&cs, m + 1, e, ' ');
    assert(line.subrange(m + 1, line.len() as int) =~= cs@.subrange(m + 1, e as int));
    if t == e {
        return None;
    }
    let method = req.substring_char(0, m);
    let get = chars_of("GET");
    let mc = chars_of(method);
    if mc.len() != get.len() || !chars_match_at(&mc, &get, 0) {
        proof {
            if mc@.len() == get@.len() {
                assert(mc@.subrange(0, get@.len() as int) =~= mc@);
            }
        }
        return None;
    }
    assert(mc@.subrange(0, get@.len() as int) =~= mc@);
    Some(req.substring_char(m + 1, t).to_owned())
}

// ---------------------------------------------------------------------------
// The response on the wire
// ---------------------------------------------------------------------------

/// The decimal digits of a number, in ASCII.
pub open spec fn decimal(n: nat) -> Seq<u8>
    decreases n,
{
    if n < 10 {
        seq![(48 + n) as u8]
    } else {
        decimal(n / 10).push((48 + n % 10) as u8)
    }
}

/// The reason phrase of a status code.
pub open spec fn reason_of(status: u16) -> Seq<char> {
    if status == 200 {
        "OK"@
    } else if status == 404 {
        "Not Found"@
    } else {
        "Internal Server Error"@
    }
}

/// The bytes sent for a response: a served document gets its status line,
/// `Content-Type`, `Content-Length` and a permissive CORS header before the
/// body; any other response is a bare status line and its short body.
pub open spec fn wire_bytes(r: ResponseView) -> Seq<u8> {
    let status_line = encode_utf8("HTTP/1.1 "@) + decimal(r.status as nat) + encode_utf8(
        " "@ + reason_of(r.status) + "\r\n"@,
    );
    if r.status == 200 && r.media is Some {
        status_line + encode_utf8("Content-Type: "@ + mime_of(r.media->0) + "\r\n"@) + encode_utf8(
            "Content-Length: "@,
        ) + decimal(r.body.len()) + encode_utf8(
            "\r\nAccess-Control-Allow-Origin: *\r\n\r\n"@,
        ) + r.body
    } else {
        status_line + encode_utf8("\r\n"@) + r.body
    }
}

/// The decimal digits of a number, in ASCII.
fn decimal_of(n: usize) -> (r: Vec<u8>)
    ensures
        r@ == decimal(n as nat),
    decreases n,
{
    if n < 10 {
        vec![(48 + n) as u8]
    } else {
        let mut r = decimal_of(n / 10);
        r.push((48 + n % 10) as u8);
        r
    }
}

/// Appends the UTF-8 bytes of a text.
fn push_text(out: &mut Vec<u8>, t: &str)
    ensures
        final(out)@ == old(out)@ + encode_utf8(t@),
{
    let mut b = t.as_bytes_vec();
    out.append(&mut b);
}

/// Appends bytes.
fn push_bytes(out: &mut Vec<u8>, b: &Vec<u8>)
    ensures
        final(out)@ == old(out)@ + b@,
{
    let mut i: usize = 0;
    let ghost start = out@;
    while i < b.len()
        invariant
            i <= b@.len(),
            out@ == start + b@.subrange(0, i as int),
        decreases b@.len() - i,
    {
        out.push(b[i]);
        i += 1;
        assert(out@ =~= start + b@.subrange(0, i as int));
    }
    assert(b@.subrange(0, b@.len() as int) =~= b@);
}

proof fn lemma_encode_concat(a: Seq<char>, b: Seq<char>)
    ensures
        encode_utf8(a + b) == encode_utf8(a) + encode_utf8(b),
    decreases a.len(),
{
    if a.len() > 0 {
        lemma_encode_concat(a.drop_first(), b);
        assert((a + b).drop_first() =~= a.drop_first() + b);
        assert(encode_utf8(a) + encode_utf8(b) =~= encode_scalar(a[0] as u32) + (encode_utf8(a.drop_first()) + encode_utf8(b)));
    } else {
        assert(a + b =~= b);
        assert(encode_utf8(a) =~= Seq::<u8>::empty());
        assert(encode_utf8(a) + encode_utf8(b) =~= encode_utf8(b));
    }
}

/// The bytes to send for a response.
pub fn wire_response(r: &Response) -> (out: Vec<u8>)
    ensures
        out@ == wire_bytes(r@),
{
    let mut out: Vec<u8> = Vec::new();
    push_text(&mut out, "HTTP/1.1 ");
    let mut d = decimal_of(r.status as usize);
    out.append(&mut d);
    let reason = if r.status == 200 {
        "OK"
    } else if r.status == 404 {
        "Not Found"
    } else {
        "Internal Server Error"
    };
    push_text(&mut out, " ");
    push_text(&mut out, reason);
    push_text(&mut out, "\r\n");
    proof {
        lemma_encode_concat(" "@, reason@);
        lemma_encode_concat(" "@ + reason@, "\r\n"@);
    }
    let ghost status_line = out@;
    assert(status_line =~= encode_utf8("HTTP/1.1 "@) + decimal(r.status as nat) + encode_utf8(
        " "@ + reason_of(r.status) + "\r\n"@,
    ));
    match r.media {
        Some(m) if r.status == 200 => {
            let mime = m.mime();
            push_text(&mut out, "Content-Type: ");
            push_text(&mut out, mime);
            push_text(&mut out, "\r\n");
            proof {
                lemma_encode_concat("Content-Type: "@, mime@);
                lemma_encode_concat("Content-Type: "@ + mime@, "\r\n"@);
            }
            push_text(&mut out, "Content-Length: ");
            let mut len = decimal_of(r.body.len());
            out.append(&mut len);
            push_text(&mut out, "\r\nAccess-Control-Allow-Origin: *\r\n\r\n");
            push_bytes(&mut out, &r.body);
            assert(out@ =~= wire_bytes(r@));
        },
        _ => {
            push_text(&mut out, "\r\n");
            push_bytes(&mut out, &r.body);
            assert(out@ =~= wire_bytes(r@));
        },
    }
    out
}

} // verus!
