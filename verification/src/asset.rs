//! Serving bundled assets and custom pet sprites: content types, byte
//! ranges, and where a requested path lives.
use vstd::prelude::*;
use crate::text::{chars_of, string_of, starts_with, starts_with_exec, ends_with, cat, skip_exec};
use crate::types::opt_view;
use crate::num::{parsed_unsigned, parse_unsigned, decimal, decimal_text};

verus! {

broadcast use vstd::string::group_string_axioms;

// ---------------------------------------------------------------------
// Content types
// ---------------------------------------------------------------------

/// A character in ASCII lower case.
pub open spec fn lower_char(c: char) -> char {
    if 'A' <= c && c <= 'Z' {
        ((c as u32) + 32) as char
    } else {
        c
    }
}

/// `str::to_ascii_lowercase`.
pub open spec fn ascii_lower(s: Seq<char>) -> Seq<char> {
    s.map_values(|c: char| lower_char(c))
}

/// The content type served for a path, by its extension in any case.
pub open spec fn mime_for(path: Seq<char>) -> Seq<char> {
    let l = ascii_lower(path);
    if ends_with(l, ".gif"@) {
        "image/gif"@
    } else if ends_with(l, ".png"@) {
        "image/png"@
    } else if ends_with(l, ".jpg"@) || ends_with(l, ".jpeg"@) {
        "image/jpeg"@
    } else if ends_with(l, ".webp"@) {
        "image/webp"@
    } else if ends_with(l, ".webm"@) {
        "video/webm"@
    } else if ends_with(l, ".mp4"@) {
        "video/mp4"@
    } else if ends_with(l, ".mov"@) {
        "video/quicktime"@
    } else {
        "application/octet-stream"@
    }
}

fn lower_char_exec(c: char) -> (r: char)
    ensures
        r == lower_char(c),
{
    if 'A' <= c && c <= 'Z' {
        let u: u32 = c as u32 + 32;
        if u == 'a' as u32 { 'a' } else if u == 'b' as u32 { 'b' } else if u == 'c' as u32 { 'c' }
        else if u == 'd' as u32 { 'd' } else if u == 'e' as u32 { 'e' } else if u == 'f' as u32 { 'f' }
        else if u == 'g' as u32 { 'g' } else if u == 'h' as u32 { 'h' } else if u == 'i' as u32 { 'i' }
        else if u == 'j' as u32 { 'j' } else if u == 'k' as u32 { 'k' } else if u == 'l' as u32 { 'l' }
        else if u == 'm' as u32 { 'm' } else if u == 'n' as u32 { 'n' } else if u == 'o' as u32 { 'o' }
        else if u == 'p' as u32 { 'p' } else if u == 'q' as u32 { 'q' } else if u == 'r' as u32 { 'r' }
        else if u == 's' as u32 { 's' } else if u == 't' as u32 { 't' } else if u == 'u' as u32 { 'u' }
        else if u == 'v' as u32 { 'v' } else if u == 'w' as u32 { 'w' } else if u == 'x' as u32 { 'x' }
        else if u == 'y' as u32 { 'y' } else { 'z' }
    } else {
        c
    }
}

fn ascii_lower_exec(s: &Vec<char>) -> (r: Vec<char>)
    ensures
        r@ == ascii_lower(s@),
{
    let mut out: Vec<char> = Vec::new();
    let mut i: usize = 0;
    while i < s.len()
        invariant
            i <= s.len(),
            out@ =~= ascii_lower(s@.take(i as int)),
        decreases s.len() - i,
    {
        out.push(lower_char_exec(s[i]));
        assert(s@.take(i + 1) =~= s@.take(i as int).push(s@[i as int]));
        i = i + 1;
    }
    assert(s@.take(s.len() as int) =~= s@);
    out
}

/// The content type served for a path (see `mime_for`).
pub fn asset_mime_for_path(path: &str) -> (r: &'static str)
    ensures
        r@ == mime_for(path@),
{
    let l = ascii_lower_exec(&chars_of(path));
    if crate::text::ends_with_exec(&l, &chars_of(".gif")) {
        "image/gif"
    } else if crate::text::ends_with_exec(&l, &chars_of(".png")) {
        "image/png"
    } else if crate::text::ends_with_exec(&l, &chars_of(".jpg")) || crate::text::ends_with_exec(
        &l,
        &chars_of(".jpeg"),
    ) {
        "image/jpeg"
    } else if crate::text::ends_with_exec(&l, &chars_of(".webp")) {
        "image/webp"
    } else if crate::text::ends_with_exec(&l, &chars_of(".webm")) {
        "video/webm"
    } else if crate::text::ends_with_exec(&l, &chars_of(".mp4")) {
        "video/mp4"
    } else if crate::text::ends_with_exec(&l, &chars_of(".mov")) {
        "video/quicktime"
    } else {
        "application/octet-stream"
    }
}

// ---------------------------------------------------------------------
// Byte ranges
// ---------------------------------------------------------------------

/// `spec.splitn(2, '-')`: the text before the first `-`, and the text
/// after it (empty when there is no `-`).
pub open spec fn split_dash(s: Seq<char>) -> (Seq<char>, Seq<char>) {
    match crate::text::find(s, "-"@) {
        Some(i) => (s.take(i), s.skip(i + 1)),
        None => (s, Seq::empty()),
    }
}

/// The byte range `(start, end)` (inclusive) served for a `Range` header
/// of a file of `total` bytes: `bytes=a-b`, `bytes=a-` or the suffix form
/// `bytes=-n`; the end is cut to the file; none for an empty file, a
/// header of another form, or a start past the end.
pub open spec fn byte_range(total: int, range: Option<Seq<char>>) -> Option<(int, int)> {
    match range {
        None => None,
        Some(h) => if total <= 0 || !starts_with(h, "bytes="@) {
            None
        } else {
            let (sp, ep) = split_dash(h.skip(6));
            let last = total - 1;
            if sp.len() == 0 {
                match parsed_unsigned(ep, usize::MAX as int) {
                    Some(n) => {
                        let n2 = if n < total {
                            n
                        } else {
                            total
                        };
                        Some((total - n2, last))
                    },
                    None => None,
                }
            } else {
                match parsed_unsigned(sp, usize::MAX as int) {
                    Some(start) => {
                        let end = if ep.len() == 0 {
                            last
                        } else {
                            match parsed_unsigned(ep, usize::MAX as int) {
                                Some(e) => if e < last {
                                    e
                                } else {
                                    last
                                },
                                None => last,
                            }
                        };
                        if start < total && start <= end {
                            Some((start, end))
                        } else {
                            None
                        }
                    },
                    None => None,
                }
            }
        },
    }
}

fn split_dash_exec(s: &Vec<char>) -> (r: (Vec<char>, Vec<char>))
    ensures
        (r.0@, r.1@) == split_dash(s@),
{
    let dash = chars_of("-");
    match crate::text::find_exec(s, &dash) {
        Some(i) => {
            proof {
                reveal_strlit("-");
                crate::text::lemma_find_from_bounds(s@, dash@, 0);
            }
            (crate::text::take_exec(s, i), crate::text::skip_past(s, i, 1))
        },
        None => (s.clone(), Vec::new()),
    }
}

/// The byte range served for a `Range` header (see `byte_range`).
pub fn requested_range(total: usize, range: Option<&str>) -> (r: Option<(usize, usize)>)
    ensures
        match r {
            Some(p) => byte_range(
                total as int,
                match range {
                    Some(h) => Some(h@),
                    None => None,
                },
            ) == Some((p.0 as int, p.1 as int)),
            None => byte_range(
                total as int,
                match range {
                    Some(h) => Some(h@),
                    None => None,
                },
            ) is None,
        },
{
    proof {
        reveal_strlit("bytes=");
    }
    let h = match range {
        Some(h) => h,
        None => return None,
    };
    let hc = chars_of(h);
    if total == 0 || !starts_with_exec(&hc, &chars_of("bytes=")) {
        return None;
    }
    let (sp, ep) = split_dash_exec(&skip_exec(&hc, 6));
    let last = total - 1;
    if sp.len() == 0 {
        match parse_unsigned(string_of(ep.as_slice()).as_str(), usize::MAX as u64) {
            Some(n) => {
                let n2: usize = if (n as usize) < total {
                    n as usize
                } else {
                    total
                };
                Some((total - n2, last))
            },
            None => None,
        }
    } else {
        match parse_unsigned(string_of(sp.as_slice()).as_str(), usize::MAX as u64) {
            Some(st) => {
                let start = st as usize;
                let end: usize = if ep.len() == 0 {
                    last
                } else {
                    match parse_unsigned(string_of(ep.as_slice()).as_str(), usize::MAX as u64) {
                        Some(e) => if (e as usize) < last {
                            e as usize
                        } else {
                            last
                        },
                        None => last,
                    }
                };
                if start < total && start <= end {
                    Some((start, end))
                } else {
                    None
                }
            },
            None => None,
        }
    }
}

/// `bytes <start>-<end>/<total>`.
pub open spec fn content_range(start: int, end: int, total: int) -> Seq<char> {
    "bytes "@ + decimal(start as nat) + "-"@ + decimal(end as nat) + "/"@ + decimal(total as nat)
}

/// How an asset request is answered: status, content type, the bytes
/// `start..end` (exclusive) of the file served, and the `Content-Range`
/// header of a partial answer.
#[derive(Debug, PartialEq, Eq)]
pub struct AssetPlan {
    pub status: u16,
    pub mime: &'static str,
    pub start: usize,
    pub end: usize,
    pub content_range: Option<String>,
}

/// The answer to a request for `path`, a file of `total` bytes, with an
/// optional `Range` header: the requested range with status 206, else the
/// whole file with status 200.
pub fn plan_asset_response(path: &str, total: usize, range: Option<&str>) -> (r: AssetPlan)
    ensures
        r.mime@ == mime_for(path@),
        match byte_range(
            total as int,
            match range {
                Some(h) => Some(h@),
                None => None,
            },
        ) {
            Some((s, e)) => r.status == 206 && r.start == s && r.end == e + 1 && (
            r.content_range matches Some(c) && c@ == content_range(s, e, total as int)),
            None => r.status == 200 && r.start == 0 && r.end == total && r.content_range is None,
        },
{
    let mime = asset_mime_for_path(path);
    match requested_range(total, range) {
        Some((s, e)) => {
            let mut t = chars_of("bytes ");
            t = cat(&t, &chars_of(decimal_text(s as u64).as_str()));
            t = cat(&t, &chars_of("-"));
            t = cat(&t, &chars_of(decimal_text(e as u64).as_str()));
            t = cat(&t, &chars_of("/"));
            t = cat(&t, &chars_of(decimal_text(total as u64).as_str()));
            AssetPlan { status: 206, mime, start: s, end: e + 1, content_range: Some(string_of(t.as_slice())) }
        },
        None => AssetPlan { status: 200, mime, start: 0, end: total, content_range: None },
    }
}

/// The headers of an answer with content type `mime` and a body of `len`
/// bytes: `Content-Type`, `Content-Length`, `Accept-Ranges: bytes`, then
/// `Content-Range` for a partial answer and, when asked,
/// `Access-Control-Allow-Origin: *`.
pub open spec fn asset_headers_of(
    mime: Seq<char>,
    len: nat,
    range: Option<Seq<char>>,
    cors: bool,
) -> Seq<(Seq<char>, Seq<char>)> {
    let base = seq![
        ("Content-Type"@, mime),
        ("Content-Length"@, decimal(len)),
        ("Accept-Ranges"@, "bytes"@),
    ];
    let ranged = match range {
        Some(c) => base.push(("Content-Range"@, c)),
        None => base,
    };
    if cors {
        ranged.push(("Access-Control-Allow-Origin"@, "*"@))
    } else {
        ranged
    }
}

/// The text of each header name and value.
pub open spec fn headers_view(h: Seq<(String, String)>) -> Seq<(Seq<char>, Seq<char>)> {
    h.map_values(|p: (String, String)| (p.0@, p.1@))
}

/// The headers of the answer `plan` describes (see `asset_headers_of`);
/// `add_cors` adds the header that lets any origin read it.
pub fn asset_headers(plan: &AssetPlan, add_cors: bool) -> (r: Vec<(String, String)>)
    requires
        plan.start <= plan.end,
    ensures
        headers_view(r@) == asset_headers_of(
            plan.mime@,
            (plan.end - plan.start) as nat,
            opt_view(plan.content_range),
            add_cors,
        ),
{
    proof {
        reveal_strlit("Content-Type");
        reveal_strlit("Content-Length");
        reveal_strlit("Accept-Ranges");
        reveal_strlit("bytes");
        reveal_strlit("Content-Range");
        reveal_strlit("Access-Control-Allow-Origin");
        reveal_strlit("*");
    }
    let mut r: Vec<(String, String)> = Vec::new();
    r.push(("Content-Type".to_string(), plan.mime.to_string()));
    let len: usize = plan.end - plan.start;
    r.push(("Content-Length".to_string(), decimal_text(len as u64)));
    r.push(("Accept-Ranges".to_string(), "bytes".to_string()));
    match &plan.content_range {
        Some(c) => r.push(("Content-Range".to_string(), c.clone())),
        None => {},
    }
    if add_cors {
        r.push(("Access-Control-Allow-Origin".to_string(), "*".to_string()));
    }
    assert(headers_view(r@) =~= asset_headers_of(
        plan.mime@,
        (plan.end - plan.start) as nat,
        opt_view(plan.content_range),
        add_cors,
    ));
    r
}

// ---------------------------------------------------------------------
// Paths
// ---------------------------------------------------------------------

/// What `percent_decode_str(raw).decode_utf8_lossy()` gives.
pub uninterp spec fn percent_decoded(raw: Seq<char>) -> Seq<char>;

/// Calls `percent_encoding::percent_decode_str(raw).decode_utf8_lossy()`.
/// Claimed: the result is `percent_decoded(raw)`, a function of `raw`
/// alone; and a text without `%` decodes to itself (the crate borrows its
/// input when there is nothing to decode).
#[verifier::external_body]
fn percent_decode_lossy(raw: &str) -> (r: String)
    ensures
        r@ == percent_decoded(raw@),
        !raw@.contains('%') ==> r@ == raw@,
{
    percent_encoding::percent_decode_str(raw).decode_utf8_lossy().into_owned()
}

/// A path without its leading slashes.
pub open spec fn without_leading_slashes(p: Seq<char>) -> Seq<char>
    decreases p.len(),
{
    if p.len() > 0 && p[0] == '/' {
        without_leading_slashes(p.drop_first())
    } else {
        p
    }
}

/// The decoded request path and the file it names under `root`: the
/// path percent-decoded, then joined, without its leading slashes, to
/// `root`.
pub fn asset_file(root: &str, raw_path: &str) -> (r: (String, String))
    ensures
        r.0@ == percent_decoded(raw_path@),
        r.1@ == crate::gateway::join(root@, without_leading_slashes(percent_decoded(raw_path@))),
{
    let path = percent_decode_lossy(raw_path);
    let pc = chars_of(path.as_str());
    let mut i: usize = 0;
    assert(pc@.skip(0) =~= pc@);
    while i < pc.len() && pc[i] == '/'
        invariant
            i <= pc.len(),
            without_leading_slashes(pc@) == without_leading_slashes(pc@.skip(i as int)),
        decreases pc.len() - i,
    {
        assert(pc@.skip(i as int).drop_first() =~= pc@.skip(i + 1));
        i = i + 1;
    }
    let rest = skip_exec(&pc, i);
    let file = crate::gateway::join_exec(&chars_of(root), &rest);
    (path, string_of(file.as_slice()))
}

} // verus!
