use vstd::prelude::*;
use vstd::string::*;

use crate::text::{chars_match_at, chars_of};

verus! {

/// The media types that documents are served with.
#[derive(Clone, Copy, Debug, PartialEq, Eq, Structural)]
pub enum MediaType {
    Html,
    Css,
    Javascript,
    Json,
    Png,
    Jpeg,
    Svg,
    Gif,
    Icon,
    Woff,
    Ttf,
    /// Anything else: generic binary content.
    Binary,
}

/// The `Content-Type` text of a media type.
pub open spec fn mime_of(m: MediaType) -> Seq<char> {
    match m {
        MediaType::Html => "text/html"@,
        MediaType::Css => "text/css"@,
        MediaType::Javascript => "application/javascript"@,
        MediaType::Json => "application/json"@,
        MediaType::Png => "image/png"@,
        MediaType::Jpeg => "image/jpeg"@,
        MediaType::Svg => "image/svg+xml"@,
        MediaType::Gif => "image/gif"@,
        MediaType::Icon => "image/x-icon"@,
        MediaType::Woff => "font/woff2"@,
        MediaType::Ttf => "font/ttf"@,
        MediaType::Binary => "application/octet-stream"@,
    }
}

/// The media type of a lowercase file extension.
pub open spec fn media_of_extension(e: Seq<char>) -> MediaType {
    if e == "html"@ {
        MediaType::Html
    } else if e == "css"@ {
        MediaType::Css
    } else if e == "js"@ {
        MediaType::Javascript
    } else if e == "json"@ {
        MediaType::Json
    } else if e == "png"@ {
        MediaType::Png
    } else if e == "jpg"@ || e == "jpeg"@ {
        MediaType::Jpeg
    } else if e == "svg"@ {
        MediaType::Svg
    } else if e == "gif"@ {
        MediaType::Gif
    } else if e == "ico"@ {
        MediaType::Icon
    } else if e == "woff"@ || e == "woff2"@ {
        MediaType::Woff
    } else if e == "ttf"@ {
        MediaType::Ttf
    } else {
        MediaType::Binary
    }
}

/// The extensions that have a media type of their own.
pub open spec fn is_listed_extension(e: Seq<char>) -> bool {
    e == "html"@ || e == "css"@ || e == "js"@ || e == "json"@ || e == "png"@ || e == "jpg"@ || e
        == "jpeg"@ || e == "svg"@ || e == "gif"@ || e == "ico"@ || e == "woff"@ || e == "woff2"@
        || e == "ttf"@
}

/// An ASCII letter in lower case; every other character as it is.
pub open spec fn ascii_lower(c: char) -> char {
    if 'A' <= c && c <= 'Z' {
        ((c as u8) + 32) as u8 as char
    } else {
        c
    }
}

/// The position of the last `c` in `s`, or -1.
pub open spec fn last_index_of(s: Seq<char>, c: char) -> int
    decreases s.len(),
{
    if s.len() == 0 {
        -1
    } else if s.last() == c {
        s.len() - 1
    } else {
        last_index_of(s.drop_last(), c)
    }
}

/// What follows the last `/` of a path.
pub open spec fn file_name(p: Seq<char>) -> Seq<char> {
    p.subrange(last_index_of(p, '/') + 1, p.len() as int)
}

/// The extension of a path, in lower case: what follows the last `.` of its
/// file name, where that dot is not the name's first character.
pub open spec fn extension_of(p: Seq<char>) -> Option<Seq<char>> {
    let n = file_name(p);
    let k = last_index_of(n, '.');
    if k > 0 {
        Some(n.subrange(k + 1, n.len() as int).map_values(|c: char| ascii_lower(c)))
    } else {
        None
    }
}

/// The media type that a path is served with.
pub open spec fn media_of_path(p: Seq<char>) -> MediaType {
    match extension_of(p) {
        Some(e) => media_of_extension(e),
        None => MediaType::Binary,
    }
}

/// Only markup is rewritten.
pub open spec fn rewrites(m: MediaType) -> bool {
    m == MediaType::Html
}

impl MediaType {
    /// The `Content-Type` text of this media type.
    pub fn mime(&self) -> (r: &'static str)
        ensures
            r@ == mime_of(*self),
    {
        match self {
            MediaType::Html => "text/html",
            MediaType::Css => "text/css",
            MediaType::Javascript => "application/javascript",
            MediaType::Json => "application/json",
            MediaType::Png => "image/png",
            MediaType::Jpeg => "image/jpeg",
            MediaType::Svg => "image/svg+xml",
            MediaType::Gif => "image/gif",
            MediaType::Icon => "image/x-icon",
            MediaType::Woff => "font/woff2",
            MediaType::Ttf => "font/ttf",
            MediaType::Binary => "application/octet-stream",
        }
    }

    /// Whether content of this type gets the navigation overlay.
    pub fn is_rewritable(&self) -> (r: bool)
        ensures
            r == rewrites(*self),
    {
        match self {
            MediaType::Html => true,
            _ => false,
        }
    }
}

proof fn lemma_last_index_of(s: Seq<char>, c: char, k: int)
    requires
        -1 <= k < s.len(),
        k >= 0 ==> s[k] == c,
        forall|j: int| k < j < s.len() ==> s[j] != c,
    ensures
        last_index_of(s, c) == k,
    decreases s.len(),
{
    if s.len() > 0 && s.last() != c {
        let t = s.drop_last();
        assert forall|j: int| k < j < t.len() implies t[j] != c by {
            assert(t[j] == s[j]);
        }
        lemma_last_index_of(t, c, k);
    }
}

/// The position of the last `c` in `v[lo..hi]`, counted from `lo`, or -1.
fn last_index_in(v: &Vec<char>, lo: usize, hi: usize, c: char) -> (r: Option<usize>)
    requires
        lo <= hi <= v@.len(),
    ensures
        last_index_of(v@.subrange(lo as int, hi as int), c) == match r {
            Some(k) => k - lo,
            None => -1,
        },
        r matches Some(k) ==> lo <= k < hi,
{
    let mut i: usize = hi;
    while i > lo
        invariant
            lo <= i <= hi,
            hi <= v@.len(),
            forall|j: int| i <= j < hi ==> v@[j] != c,
        decreases i - lo,
    {
        if v[i - 1] == c {
            proof {
                lemma_last_index_of(v@.subrange(lo as int, hi as int), c, i - 1 - lo);
            }
            return Some(i - 1);
        }
        i -= 1;
    }
    proof {
        lemma_last_index_of(v@.subrange(lo as int, hi as int), c, -1);
    }
    None
}

/// Whether two character sequences are the same.
fn same_chars(a: &Vec<char>, b: &Vec<char>) -> (r: bool)
    ensures
        r == (a@ == b@),
{
    if a.len() != b.len() {
        return false;
    }
    let r = chars_match_at(a, b, 0);
    assert(a@.subrange(0, b@.len() as int) =~= a@);
    r
}

/// Whether the characters are those of the text.
fn is_text(a: &Vec<char>, t: &str) -> (r: bool)
    ensures
        r == (a@ == t@),
{
    same_chars(a, &chars_of(t))
}

/// The media type of a lowercase extension.
fn media_of_ext(e: &Vec<char>) -> (r: MediaType)
    ensures
        r == media_of_extension(e@),
{
    if is_text(e, "html") {
        MediaType::Html
    } else if is_text(e, "css") {
        MediaType::Css
    } else if is_text(e, "js") {
        MediaType::Javascript
    } else if is_text(e, "json") {
        MediaType::Json
    } else if is_text(e, "png") {
        MediaType::Png
    } else if is_text(e, "jpg") || is_text(e, "jpeg") {
        MediaType::Jpeg
    } else if is_text(e, "svg") {
        MediaType::Svg
    } else if is_text(e, "gif") {
        MediaType::Gif
    } else if is_text(e, "ico") {
        MediaType::Icon
    } else if is_text(e, "woff") || is_text(e, "woff2") {
        MediaType::Woff
    } else if is_text(e, "ttf") {
        MediaType::Ttf
    } else {
        MediaType::Binary
    }
}

/// The media type that a path is served with, by its extension in lower
/// case; a path without one is generic binary content.
pub fn classify(path: &str) -> (r: MediaType)
    ensures
        r == media_of_path(path@),
{
    let p = chars_of(path);
    let n = p.len();
    let name_start: usize = match last_index_in(&p, 0, n, '/') {
        Some(k) => k + 1,
        None => 0,
    };
    assert(p@.subrange(0, n as int) =~= p@);
    assert(file_name(path@) == p@.subrange(name_start as int, n as int));
    let dot = last_index_in(&p, name_start, n, '.');
    match dot {
        Some(k) => {
            if k == name_start {
                return MediaType::Binary;
            }
            let mut e: Vec<char> = Vec::new();
            let mut i: usize = k + 1;
            while i < n
                invariant
                    k + 1 <= i <= n,
                    n == p@.len(),
                    e@ == p@.subrange(k + 1, i as int).map_values(|c: char| ascii_lower(c)),
                decreases n - i,
            {
                let c = p[i];
                let l = if 'A' <= c && c <= 'Z' {
                    ((c as u8) + 32) as char
                } else {
                    c
                };
                e.push(l);
                i += 1;
                assert(e@ =~= p@.subrange(k + 1, i as int).map_values(|c: char| ascii_lower(c)));
            }
            let ghost name = p@.subrange(name_start as int, n as int);
            assert(name.subrange(k - name_start + 1, name.len() as int) =~= p@.subrange(
                k + 1,
                n as int,
            ));
            media_of_ext(&e)
        },
        None => MediaType::Binary,
    }
}

/// The table of media types: each listed extension has its own type, every
/// other extension is generic binary content, and only markup is rewritten.
pub proof fn lemma_classification_table(e: Seq<char>, m: MediaType)
    ensures
        e == "html"@ ==> media_of_extension(e) == MediaType::Html,
        e == "css"@ ==> media_of_extension(e) == MediaType::Css,
        e == "js"@ ==> media_of_extension(e) == MediaType::Javascript,
        e == "json"@ ==> media_of_extension(e) == MediaType::Json,
        e == "png"@ ==> media_of_extension(e) == MediaType::Png,
        e == "jpg"@ || e == "jpeg"@ ==> media_of_extension(e) == MediaType::Jpeg,
        e == "svg"@ ==> media_of_extension(e) == MediaType::Svg,
        e == "gif"@ ==> media_of_extension(e) == MediaType::Gif,
        e == "ico"@ ==> media_of_extension(e) == MediaType::Icon,
        e == "woff"@ || e == "woff2"@ ==> media_of_extension(e) == MediaType::Woff,
        e == "ttf"@ ==> media_of_extension(e) == MediaType::Ttf,
        !is_listed_extension(e) ==> media_of_extension(e) == MediaType::Binary,
        rewrites(m) <==> m == MediaType::Html,
{
    reveal_strlit("html");
    reveal_strlit("css");
    reveal_strlit("js");
    reveal_strlit("json");
    reveal_strlit("png");
    reveal_strlit("jpg");
    reveal_strlit("jpeg");
    reveal_strlit("svg");
    reveal_strlit("gif");
    reveal_strlit("ico");
    reveal_strlit("woff");
    reveal_strlit("woff2");
    reveal_strlit("ttf");
    assert("css"@.len() != "html"@.len());
    assert("js"@.len() != "html"@.len());
    assert("js"@.len() != "css"@.len());
    assert("json"@[0] != "html"@[0]);
    assert("json"@.len() != "css"@.len());
    assert("json"@.len() != "js"@.len());
    assert("png"@.len() != "html"@.len());
    assert("png"@[0] != "css"@[0]);
    assert("png"@.len() != "js"@.len());
    assert("png"@.len() != "json"@.len());
    assert("jpg"@.len() != "html"@.len());
    assert("jpg"@[0] != "css"@[0]);
    assert("jpg"@.len() != "js"@.len());
    assert("jpg"@.len() != "json"@.len());
    assert("jpg"@[0] != "png"@[0]);
    assert("jpeg"@[0] != "html"@[0]);
    assert("jpeg"@.len() != "css"@.len());
    assert("jpeg"@.len() != "js"@.len());
    assert("jpeg"@[1] != "json"@[1]);
    assert("jpeg"@.len() != "png"@.len());
    assert("jpeg"@.len() != "jpg"@.len());
    assert("svg"@.len() != "html"@.len());
    assert("svg"@[0] != "css"@[0]);
    assert("svg"@.len() != "js"@.len());
    assert("svg"@.len() != "json"@.len());
    assert("svg"@[0] != "png"@[0]);
    assert("svg"@[0] != "jpg"@[0]);
    assert("svg"@.len() != "jpeg"@.len());
    assert("gif"@.len() != "html"@.len());
    assert("gif"@[0] != "css"@[0]);
    assert("gif"@.len() != "js"@.len());
    assert("gif"@.len() != "json"@.len());
    assert("gif"@[0] != "png"@[0]);
    assert("gif"@[0] != "jpg"@[0]);
    assert("gif"@.len() != "jpeg"@.len());
    assert("gif"@[0] != "svg"@[0]);
    assert("ico"@.len() != "html"@.len());
    assert("ico"@[0] != "css"@[0]);
    assert("ico"@.len() != "js"@.len());
    assert("ico"@.len() != "json"@.len());
    assert("ico"@[0] != "png"@[0]);
    assert("ico"@[0] != "jpg"@[0]);
    assert("ico"@.len() != "jpeg"@.len());
    assert("ico"@[0] != "svg"@[0]);
    assert("ico"@[0] != "gif"@[0]);
    assert("woff"@[0] != "html"@[0]);
    assert("woff"@.len() != "css"@.len());
    assert("woff"@.len() != "js"@.len());
    assert("woff"@[0] != "json"@[0]);
    assert("woff"@.len() != "png"@.len());
    assert("woff"@.len() != "jpg"@.len());
    assert("woff"@[0] != "jpeg"@[0]);
    assert("woff"@.len() != "svg"@.len());
    assert("woff"@.len() != "gif"@.len());
    assert("woff"@.len() != "ico"@.len());
    assert("woff2"@.len() != "html"@.len());
    assert("woff2"@.len() != "css"@.len());
    assert("woff2"@.len() != "js"@.len());
    assert("woff2"@.len() != "json"@.len());
    assert("woff2"@.len() != "png"@.len());
    assert("woff2"@.len() != "jpg"@.len());
    assert("woff2"@.len() != "jpeg"@.len());
    assert("woff2"@.len() != "svg"@.len());
    assert("woff2"@.len() != "gif"@.len());
    assert("woff2"@.len() != "ico"@.len());
    assert("woff2"@.len() != "woff"@.len());
    assert("ttf"@.len() != "html"@.len());
    assert("ttf"@[0] != "css"@[0]);
    assert("ttf"@.len() != "js"@.len());
    assert("ttf"@.len() != "json"@.len());
    assert("ttf"@[0] != "png"@[0]);
    assert("ttf"@[0] != "jpg"@[0]);
    assert("ttf"@.len() != "jpeg"@.len());
    assert("ttf"@[0] != "svg"@[0]);
    assert("ttf"@[0] != "gif"@[0]);
    assert("ttf"@[0] != "ico"@[0]);
    assert("ttf"@.len() != "woff"@.len());
    assert("ttf"@.len() != "woff2"@.len());
}

} // verus!
