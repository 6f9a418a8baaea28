use vstd::prelude::*;
use vstd::string::*;
use vstd::utf8::*;

use crate::text::{chars_match_at, chars_of, find_chars, occurs, occurs_at};

verus! {

// ---------------------------------------------------------------------------
// From a locator to the raw path it names
// ---------------------------------------------------------------------------

/// The locator without its scheme prefix, where it has one.
pub open spec fn strip_scheme(u: Seq<char>) -> Seq<char> {
    if occurs_at(u, "myapp://"@, 0) {
        u.subrange("myapp://"@.len() as int, u.len() as int)
    } else {
        u
    }
}

/// What stands before the first `c` in `s` (all of `s` where there is none).
pub open spec fn before_char(s: Seq<char>, c: char) -> Seq<char>
    decreases s.len(),
{
    if s.len() == 0 {
        s
    } else if s[0] == c {
        Seq::empty()
    } else {
        seq![s[0]] + before_char(s.drop_first(), c)
    }
}

/// `s` with leading `./` and `/` taken off until neither is left.
pub open spec fn trim_leading(s: Seq<char>) -> Seq<char>
    decreases s.len(),
{
    if s.len() >= 2 && s[0] == '.' && s[1] == '/' {
        trim_leading(s.subrange(2, s.len() as int))
    } else if s.len() >= 1 && s[0] == '/' {
        trim_leading(s.drop_first())
    } else {
        s
    }
}

/// The still encoded path that a locator names: no scheme, no query, no
/// fragment, no leading `./` or `/`.
pub open spec fn raw_path(u: Seq<char>) -> Seq<char> {
    trim_leading(before_char(before_char(strip_scheme(u), '?'), '#'))
}

// ---------------------------------------------------------------------------
// Percent decoding
// ---------------------------------------------------------------------------

/// The value of an ASCII hex digit.
pub open spec fn hex_digit_value(b: u8) -> Option<u8> {
    if 48 <= b <= 57 {
        Some((b - 48) as u8)
    } else if 65 <= b <= 70 {
        Some((b - 55) as u8)
    } else if 97 <= b <= 102 {
        Some((b - 87) as u8)
    } else {
        None
    }
}

/// The bytes with each `%` followed by two hex digits replaced by the byte
/// that the digits spell; every other byte (a lone `%`, a `+`) is kept.
pub open spec fn percent_decoded(b: Seq<u8>) -> Seq<u8>
    decreases b.len(),
{
    if b.len() == 0 {
        b
    } else if b[0] == 37 && b.len() >= 3 && hex_digit_value(b[1]) is Some && hex_digit_value(
        b[2],
    ) is Some {
        seq![(hex_digit_value(b[1])->0 * 16 + hex_digit_value(b[2])->0) as u8] + percent_decoded(
            b.subrange(3, b.len() as int),
        )
    } else {
        seq![b[0]] + percent_decoded(b.drop_first())
    }
}

/// The decoded path; where the decoded bytes are not UTF-8 the path stays as
/// it was.
pub open spec fn decoded_path(raw: Seq<char>) -> Seq<char> {
    let b = percent_decoded(encode_utf8(raw));
    if valid_utf8(b) {
        decode_utf8(b)
    } else {
        raw
    }
}

/// Relies on urlencoding::decode: each `%` followed by two hex digits becomes
/// the byte that they spell, every other byte is kept, and the call fails
/// exactly where the bytes so obtained are not UTF-8.
#[verifier::external_body]
fn percent_decode(s: &str) -> (r: Option<String>)
    ensures
        r is Some == valid_utf8(percent_decoded(s.spec_bytes())),
        r matches Some(d) ==> encode_utf8(d@) == percent_decoded(s.spec_bytes()),
{
    match urlencoding::decode(s) {
        Ok(d) => Some(d.into_owned()),
        Err(_) => None,
    }
}

// ---------------------------------------------------------------------------
// From a decoded path to a document under the root
// ---------------------------------------------------------------------------

/// The state of a left-to-right walk over the segments of a path.
pub struct Walk {
    /// The segments kept so far.
    pub segs: Seq<Seq<char>>,
    /// The segment being read.
    pub cur: Seq<char>,
    /// A `..` has climbed above the root.
    pub escaped: bool,
}

/// A segment that names nothing: empty or `.`.
pub open spec fn is_blank_segment(s: Seq<char>) -> bool {
    s == Seq::<char>::empty() || s == seq!['.']
}

/// A segment that climbs: `..`.
pub open spec fn is_parent_segment(s: Seq<char>) -> bool {
    s == seq!['.', '.']
}

/// The walk once the segment being read has ended.
pub open spec fn flush(w: Walk) -> Walk {
    if is_blank_segment(w.cur) {
        Walk { segs: w.segs, cur: Seq::empty(), escaped: w.escaped }
    } else if is_parent_segment(w.cur) {
        if w.segs.len() == 0 {
            Walk { segs: w.segs, cur: Seq::empty(), escaped: true }
        } else {
            Walk { segs: w.segs.drop_last(), cur: Seq::empty(), escaped: w.escaped }
        }
    } else {
        Walk { segs: w.segs.push(w.cur), cur: Seq::empty(), escaped: w.escaped }
    }
}

/// The walk after one more character.
pub open spec fn walk_step(w: Walk, c: char) -> Walk {
    if c == '/' {
        flush(w)
    } else {
        Walk { segs: w.segs, cur: w.cur.push(c), escaped: w.escaped }
    }
}

/// The walk over all of `s`.
pub open spec fn walk(s: Seq<char>) -> Walk
    decreases s.len(),
{
    if s.len() == 0 {
        Walk { segs: Seq::empty(), cur: Seq::empty(), escaped: false }
    } else {
        walk_step(walk(s.drop_last()), s.last())
    }
}

/// The segments of the document that a decoded path names under the root,
/// or `None` where a `..` would climb above the root. A path that ends in a
/// directory (empty, or ending in `/`, `.` or `..`) names the default
/// document `index.html` there.
pub open spec fn document_segments(d: Seq<char>) -> Option<Seq<Seq<char>>> {
    let w = walk(d);
    let f = flush(w);
    if f.escaped {
        None
    } else if is_blank_segment(w.cur) || is_parent_segment(w.cur) {
        Some(f.segs.push("index.html"@))
    } else {
        Some(f.segs)
    }
}

/// The segments joined by `/`.
pub open spec fn join(segs: Seq<Seq<char>>) -> Seq<char>
    decreases segs.len(),
{
    if segs.len() == 0 {
        Seq::empty()
    } else if segs.len() == 1 {
        segs[0]
    } else {
        join(segs.drop_last()) + seq!['/'] + segs.last()
    }
}

/// A decoded path that looks like a call to a backend service.
pub open spec fn is_backend_call(d: Seq<char>) -> bool {
    occurs(d, "/api/"@) || occurs(d, "/session/"@) || occurs(d, "/ai/"@)
}

/// What a locator resolves to.
pub enum Resolution {
    /// The document at this path, relative to the root.
    Document(String),
    /// A backend call, which is intentionally not served.
    Unavailable,
    /// A path that would climb above the root.
    OutsideRoot,
}

/// What a locator resolves to, as a mathematical value.
pub enum ResolutionView {
    Document(Seq<char>),
    Unavailable,
    OutsideRoot,
}

impl View for Resolution {
    type V = ResolutionView;

    open spec fn view(&self) -> ResolutionView {
        match self {
            Resolution::Document(p) => ResolutionView::Document(p@),
            Resolution::Unavailable => ResolutionView::Unavailable,
            Resolution::OutsideRoot => ResolutionView::OutsideRoot,
        }
    }
}

/// What a decoded path resolves to.
pub open spec fn resolution_of_decoded(d: Seq<char>) -> ResolutionView {
    if is_backend_call(d) {
        ResolutionView::Unavailable
    } else {
        match document_segments(d) {
            Some(segs) => ResolutionView::Document(join(segs)),
            None => ResolutionView::OutsideRoot,
        }
    }
}

/// What a locator resolves to.
pub open spec fn resolution_of(u: Seq<char>) -> ResolutionView {
    resolution_of_decoded(decoded_path(raw_path(u)))
}

// ---------------------------------------------------------------------------
// Executable resolution
// ---------------------------------------------------------------------------

proof fn lemma_before_char(s: Seq<char>, c: char, i: int)
    requires
        0 <= i <= s.len(),
        forall|j: int| 0 <= j < i ==> s[j] != c,
        i == s.len() || s[i] == c,
    ensures
        before_char(s, c) == s.subrange(0, i),
    decreases s.len(),
{
    if s.len() == 0 {
        assert(s.subrange(0, 0) =~= s);
    } else if s[0] == c {
        assert(s.subrange(0, 0) =~= Seq::<char>::empty());
    } else {
        let t = s.drop_first();
        assert forall|j: int| 0 <= j < i - 1 implies t[j] != c by {
            assert(t[j] == s[j + 1]);
        }
        lemma_before_char(t, c, i - 1);
        assert(seq![s[0]] + t.subrange(0, i - 1) =~= s.subrange(0, i));
    }
}

/// The end of what stands in `u[lo..hi]` before its first `c`.
pub(crate) fn cut_before(u: &Vec<char>, lo: usize, hi: usize, c: char) -> (r: usize)
    requires
        lo <= hi <= u@.len(),
    ensures
        lo <= r <= hi,
        before_char(u@.subrange(lo as int, hi as int), c) == u@.subrange(lo as int, r as int),
{
    let mut i: usize = lo;
    while i < hi && u[i] != c
        invariant
            lo <= i <= hi,
            hi <= u@.len(),
            forall|j: int| lo <= j < i ==> u@[j] != c,
        decreases hi - i,
    {
        i += 1;
    }
    let ghost s = u@.subrange(lo as int, hi as int);
    proof {
        lemma_before_char(s, c, i - lo);
        assert(s.subrange(0, i - lo) =~= u@.subrange(lo as int, i as int));
    }
    i
}

/// The start of `u[lo..hi]` once leading `./` and `/` are taken off.
fn skip_leading(u: &Vec<char>, lo: usize, hi: usize) -> (r: usize)
    requires
        lo <= hi <= u@.len(),
    ensures
        lo <= r <= hi,
        trim_leading(u@.subrange(lo as int, hi as int)) == u@.subrange(r as int, hi as int),
{
    let mut i: usize = lo;
    loop
        invariant
            lo <= i <= hi,
            hi <= u@.len(),
            trim_leading(u@.subrange(lo as int, hi as int)) == trim_leading(
                u@.subrange(i as int, hi as int),
            ),
        decreases hi - i,
    {
        let ghost s = u@.subrange(i as int, hi as int);
        if hi - i > 1 && u[i] == '.' && u[i + 1] == '/' {
            assert(s.subrange(2, s.len() as int) =~= u@.subrange(i + 2, hi as int));
            i += 2;
        } else if i < hi && u[i] == '/' {
            assert(s.drop_first() =~= u@.subrange(i + 1, hi as int));
            i += 1;
        } else {
            return i;
        }
    }
}

/// The still encoded path that a locator names.
pub fn raw_path_of(u: &str) -> (r: String)
    ensures
        r@ == raw_path(u@),
{
    let cs = chars_of(u);
    let scheme = chars_of("myapp://");
    let n = cs.len();
    let mut lo: usize = 0;
    if scheme.len() <= n && chars_match_at(&cs, &scheme, 0) {
        lo = scheme.len();
    }
    assert(strip_scheme(u@) =~= cs@.subrange(lo as int, n as int));
    let q = cut_before(&cs, lo, n, '?');
    let h = cut_before(&cs, lo, q, '#');
    assert(cs@.subrange(lo as int, q as int).subrange(0, h - lo) =~= cs@.subrange(
        lo as int,
        h as int,
    ));
    let start = skip_leading(&cs, lo, h);
    u.substring_char(start, h).to_owned()
}

/// The segment texts that a list of ranges of `d` picks out.
pub open spec fn seg_texts(d: Seq<char>, r: Seq<(usize, usize)>) -> Seq<Seq<char>> {
    r.map_values(|p: (usize, usize)| d.subrange(p.0 as int, p.1 as int))
}

/// Whether `d[lo..hi]` is empty or `.`.
fn blank_at(d: &Vec<char>, lo: usize, hi: usize) -> (r: bool)
    requires
        lo <= hi <= d@.len(),
    ensures
        r == is_blank_segment(d@.subrange(lo as int, hi as int)),
{
    let ghost s = d@.subrange(lo as int, hi as int);
    if lo == hi {
        assert(s =~= Seq::<char>::empty());
        true
    } else if hi - lo == 1 && d[lo] == '.' {
        assert(s =~= seq!['.']);
        true
    } else {
        let ghost dot = seq!['.'];
        assert(dot.len() == 1 && dot[0] == '.');
        assert(s.len() > 0);
        if hi - lo == 1 {
            assert(s[0] != dot[0]);
        } else {
            assert(s.len() != dot.len());
        }
        false
    }
}

/// Whether `d[lo..hi]` is `..`.
fn parent_at(d: &Vec<char>, lo: usize, hi: usize) -> (r: bool)
    requires
        lo <= hi <= d@.len(),
    ensures
        r == is_parent_segment(d@.subrange(lo as int, hi as int)),
{
    let ghost s = d@.subrange(lo as int, hi as int);
    if hi - lo == 2 && d[lo] == '.' && d[lo + 1] == '.' {
        assert(s =~= seq!['.', '.']);
        true
    } else {
        let ghost dd = seq!['.', '.'];
        assert(dd.len() == 2 && dd[0] == '.' && dd[1] == '.');
        if hi - lo == 2 {
            if d[lo] != '.' {
                assert(s[0] != dd[0]);
            } else {
                assert(s[1] != dd[1]);
            }
        } else {
            assert(s.len() != dd.len());
        }
        false
    }
}

proof fn lemma_join_push(segs: Seq<Seq<char>>, s: Seq<char>)
    ensures
        segs.len() == 0 ==> join(segs.push(s)) == s,
        segs.len() > 0 ==> join(segs.push(s)) == join(segs) + seq!['/'] + s,
{
    assert(segs.push(s).drop_last() =~= segs);
}

/// Ends the segment `d[cur..i]`, as `flush` does.
fn flush_segment(
    d: &Vec<char>,
    segs: &mut Vec<(usize, usize)>,
    escaped: &mut bool,
    cur: usize,
    i: usize,
)
    requires
        cur <= i <= d@.len(),
        forall|k: int| 0 <= k < old(segs)@.len() ==> #[trigger] old(segs)@[k].0 <= old(segs)@[k].1 <= d@.len(),
    ensures
        forall|k: int| 0 <= k < final(segs)@.len() ==> #[trigger] final(segs)@[k].0 <= final(segs)@[k].1 <= d@.len(),
        flush(
            Walk {
                segs: seg_texts(d@, old(segs)@),
                cur: d@.subrange(cur as int, i as int),
                escaped: *old(escaped),
            },
        ) == (Walk {
            segs: seg_texts(d@, final(segs)@),
            cur: Seq::empty(),
            escaped: *final(escaped),
        }),
{
    let ghost before = segs@;
    if blank_at(d, cur, i) {
    } else if parent_at(d, cur, i) {
        if segs.len() == 0 {
            *escaped = true;
        } else {
            segs.pop();
            assert(seg_texts(d@, segs@) =~= seg_texts(d@, before).drop_last());
        }
    } else {
        segs.push((cur, i));
        assert(seg_texts(d@, segs@) =~= seg_texts(d@, before).push(
            d@.subrange(cur as int, i as int),
        ));
    }
}

/// What a decoded path resolves to.
pub fn resolve_decoded(d: &str) -> (r: Resolution)
    ensures
        r@ == resolution_of_decoded(d@),
{
    let dv = chars_of(d);
    if find_chars(&dv, &chars_of("/api/")).is_some() || find_chars(&dv, &chars_of("/session/")).is_some()
        || find_chars(&dv, &chars_of("/ai/")).is_some() {
        return Resolution::Unavailable;
    }
    let n = dv.len();
    let mut segs: Vec<(usize, usize)> = Vec::new();
    let mut escaped = false;
    let mut cur: usize = 0;
    let mut i: usize = 0;
    assert(seg_texts(dv@, segs@) =~= Seq::<Seq<char>>::empty());
    assert(dv@.subrange(0, 0) =~= Seq::<char>::empty());
    while i < n
        invariant
            n == dv@.len(),
            cur <= i <= n,
            forall|k: int| 0 <= k < segs@.len() ==> #[trigger] segs@[k].0 <= segs@[k].1 <= n,
            walk(dv@.subrange(0, i as int)) == (Walk {
                segs: seg_texts(dv@, segs@),
                cur: dv@.subrange(cur as int, i as int),
                escaped,
            }),
        decreases n - i,
    {
        let c = dv[i];
        assert(dv@.subrange(0, i + 1).drop_last() =~= dv@.subrange(0, i as int));
        if c == '/' {
            flush_segment(&dv, &mut segs, &mut escaped, cur, i);
            cur = i + 1;
            assert(dv@.subrange(cur as int, i + 1) =~= Seq::<char>::empty());
        } else {
            assert(dv@.subrange(cur as int, i + 1) =~= dv@.subrange(cur as int, i as int).push(c));
        }
        i += 1;
    }
    assert(dv@.subrange(0, n as int) =~= dv@);
    let names_dir = blank_at(&dv, cur, n) || parent_at(&dv, cur, n);
    flush_segment(&dv, &mut segs, &mut escaped, cur, n);
    if escaped {
        return Resolution::OutsideRoot;
    }
    let ghost texts = seg_texts(dv@, segs@);
    let mut out = String::new();
    let mut k: usize = 0;
    proof {
        reveal_strlit("/");
        assert(texts.subrange(0, 0) =~= Seq::<Seq<char>>::empty());
    }
    while k < segs.len()
        invariant
            k <= segs@.len(),
            texts == seg_texts(dv@, segs@),
            dv@ == d@,
            forall|m: int| 0 <= m < segs@.len() ==> #[trigger] segs@[m].0 <= segs@[m].1 <= dv@.len(),
            out@ == join(texts.subrange(0, k as int)),
            "/"@ == seq!['/'],
        decreases segs@.len() - k,
    {
        let (a, b) = segs[k];
        proof {
            lemma_join_push(texts.subrange(0, k as int), texts[k as int]);
            assert(texts.subrange(0, k as int).push(texts[k as int]) =~= texts.subrange(0, k + 1));
        }
        if k > 0 {
            out.append("/");
        }
        out.append(d.substring_char(a, b));
        k += 1;
    }
    assert(texts.subrange(0, segs@.len() as int) =~= texts);
    if names_dir {
        proof {
            lemma_join_push(texts, "index.html"@);
        }
        if segs.len() > 0 {
            out.append("/");
        }
        out.append("index.html");
    }
    Resolution::Document(out)
}

/// What a locator resolves to: its raw path is percent-decoded (kept as it
/// was where that fails) and then resolved.
pub fn resolve(uri: &str) -> (r: Resolution)
    ensures
        r@ == resolution_of(uri@),
        r matches Resolution::Document(p) ==> stays_below_root(p@),
{
    proof {
        lemma_resolution_stays_below_root(uri@);
    }
    let raw = raw_path_of(uri);
    let d = match percent_decode(raw.as_str()) {
        Some(d) => {
            proof {
                encode_utf8_decode_utf8(d@);
            }
            d
        },
        None => raw,
    };
    resolve_decoded(d.as_str())
}

// ---------------------------------------------------------------------------
// Resolution never leaves the root
// ---------------------------------------------------------------------------

/// A name that stays where it stands: not empty, not `.` or `..`, and
/// without `/`.
pub open spec fn is_plain_name(s: Seq<char>) -> bool {
    s.len() > 0 && !is_blank_segment(s) && !is_parent_segment(s) && forall|j: int|
        0 <= j < s.len() ==> s[j] != '/'
}

/// A relative path that names something strictly below the root: plain
/// names joined by `/`.
pub open spec fn stays_below_root(p: Seq<char>) -> bool {
    exists|segs: Seq<Seq<char>>|
        segs.len() >= 1 && (forall|i: int| 0 <= i < segs.len() ==> is_plain_name(#[trigger] segs[i]))
            && p == join(segs)
}

/// Every segment that a walk keeps is a plain name, and the segment being
/// read holds no `/`.
pub open spec fn walk_is_plain(w: Walk) -> bool {
    (forall|i: int| 0 <= i < w.segs.len() ==> is_plain_name(#[trigger] w.segs[i])) && forall|j: int|
        0 <= j < w.cur.len() ==> w.cur[j] != '/'
}

proof fn lemma_flush_plain(w: Walk)
    requires
        walk_is_plain(w),
    ensures
        walk_is_plain(flush(w)),
        !is_blank_segment(w.cur) && !is_parent_segment(w.cur) ==> flush(w).segs.len() >= 1,
{
    let f = flush(w);
    if !is_blank_segment(w.cur) && !is_parent_segment(w.cur) {
        if w.cur.len() == 0 {
            assert(w.cur =~= Seq::<char>::empty());
        }
        assert forall|i: int| 0 <= i < f.segs.len() implies is_plain_name(#[trigger] f.segs[i]) by {
            if i < w.segs.len() {
                assert(f.segs[i] == w.segs[i]);
            } else {
                assert(f.segs[i] == w.cur);
            }
        }
    } else if is_parent_segment(w.cur) && w.segs.len() > 0 {
        assert forall|i: int| 0 <= i < f.segs.len() implies is_plain_name(#[trigger] f.segs[i]) by {
            assert(f.segs[i] == w.segs[i]);
        }
    }
}

proof fn lemma_walk_plain(s: Seq<char>)
    ensures
        walk_is_plain(walk(s)),
    decreases s.len(),
{
    if s.len() > 0 {
        let w = walk(s.drop_last());
        lemma_walk_plain(s.drop_last());
        if s.last() == '/' {
            lemma_flush_plain(w);
        } else {
            let w2 = walk(s);
            assert(w2.cur == w.cur.push(s.last()));
            assert forall|j: int| 0 <= j < w2.cur.len() implies w2.cur[j] != '/' by {
                if j < w.cur.len() {
                    assert(w2.cur[j] == w.cur[j]);
                }
            }
        }
    }
}

/// A decoded path resolves to a document only below the root: its segments
/// are plain names, so no `..` is left to climb out.
pub proof fn lemma_decoded_resolution_stays_below_root(d: Seq<char>)
    ensures
        resolution_of_decoded(d) matches ResolutionView::Document(p) ==> stays_below_root(p),
{
    let w = walk(d);
    lemma_walk_plain(d);
    lemma_flush_plain(w);
    let f = flush(w);
    if !f.escaped && !is_backend_call(d) {
        if is_blank_segment(w.cur) || is_parent_segment(w.cur) {
            let segs = f.segs.push("index.html"@);
            assert(is_plain_name("index.html"@)) by {
                reveal_strlit("index.html");
            }
            assert forall|i: int| 0 <= i < segs.len() implies is_plain_name(#[trigger] segs[i]) by {
                if i < f.segs.len() {
                    assert(segs[i] == f.segs[i]);
                }
            }
            assert(document_segments(d) == Some(segs));
        } else {
            assert(document_segments(d) == Some(f.segs));
        }
    }
}

/// Whatever the locator, and whatever `..` segments it holds once decoded,
/// it resolves to a document only strictly below the root.
pub proof fn lemma_resolution_stays_below_root(u: Seq<char>)
    ensures
        resolution_of(u) matches ResolutionView::Document(p) ==> stays_below_root(p),
{
    lemma_decoded_resolution_stays_below_root(decoded_path(raw_path(u)));
}

} // verus!
