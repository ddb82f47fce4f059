//! The resource-fetch front-end: parsing the positional index out of a
//! request, resolving it against the snapshot, and shaping the response.
//!
//! Every failure on this path — malformed query, out-of-range index,
//! non-image extension, unreadable file — collapses into the same empty
//! not-found response, on purpose: the protocol leaks nothing about the
//! filesystem.  Reading the file's bytes happens outside; the caller hands
//! the read's outcome back in to shape the final response.

use vstd::prelude::*;
use vstd::string::StrSliceExecFns;

use crate::image::image_mime;
use crate::image::is_img_extension;
use crate::image::is_img_extension_spec;
use crate::image::mime_for_extension;
use crate::nav::Navigator;
use crate::paths::extension;
use crate::paths::extension_of;

verus! {

/// Whether the query marker `?n=` starts at `i`.
pub open spec fn marker_at(s: Seq<char>, i: int) -> bool {
    &&& i + 3 <= s.len()
    &&& s[i] == '?'
    &&& s[i + 1] == 'n'
    &&& s[i + 2] == '='
}

/// The first position at or after `from` where the query marker starts, or
/// -1 where there is none.
pub open spec fn find_marker_from(s: Seq<char>, from: int) -> int
    decreases s.len() - from,
{
    if from + 3 > s.len() {
        -1
    } else if marker_at(s, from) {
        from
    } else {
        find_marker_from(s, from + 1)
    }
}

/// The first position at or after `from` holding the character `c`, or -1
/// where there is none.
pub open spec fn find_char_from(s: Seq<char>, c: char, from: int) -> int
    decreases s.len() - from,
{
    if from >= s.len() {
        -1
    } else if s[from] == c {
        from
    } else {
        find_char_from(s, c, from + 1)
    }
}

/// Whether `c` is a decimal digit.
pub open spec fn is_digit(c: char) -> bool {
    48 <= c as u32 <= 57
}

/// The numeric value of a sequence of decimal digits.
pub open spec fn digits_val(s: Seq<char>) -> nat
    decreases s.len(),
{
    if s.len() == 0 {
        0
    } else {
        (digits_val(s.drop_last()) * 10 + (s.last() as u32 - 48)) as nat
    }
}

/// Whether `s` is a well-formed decimal numeral whose value fits a `usize`.
pub open spec fn valid_index_digits(s: Seq<char>) -> bool {
    &&& s.len() > 0
    &&& (forall|i: int| 0 <= i < s.len() ==> is_digit(s[i]))
    &&& digits_val(s) <= usize::MAX
}

/// The positional index carried by a request: the decimal numeral between
/// the first `?n=` marker and the first `&` of the whole request string.
/// Missing marker, missing terminator, a terminator not after the marker,
/// a non-numeral or an oversized value all mean there is none.
pub open spec fn query_index(s: Seq<char>) -> Option<nat> {
    let qi = find_marker_from(s, 0);
    let amp = find_char_from(s, '&', 0);
    if qi < 0 || amp < qi + 3 {
        None
    } else {
        let digits = s.subrange(qi + 3, amp);
        if valid_index_digits(digits) {
            Some(digits_val(digits))
        } else {
            None
        }
    }
}

/// A growing prefix of a numeral never exceeds the numeral's value.
proof fn lemma_digits_prefix_le(s: Seq<char>, n: int)
    requires
        0 <= n <= s.len(),
        forall|i: int| 0 <= i < s.len() ==> is_digit(s[i]),
    ensures
        digits_val(s.subrange(0, n)) <= digits_val(s),
    decreases s.len() - n,
{
    if n < s.len() {
        lemma_digits_prefix_le(s, n + 1);
        assert(s.subrange(0, n + 1).drop_last() =~= s.subrange(0, n));
        assert(s.subrange(0, n + 1).last() == s[n]);
    } else {
        assert(s.subrange(0, n) =~= s);
    }
}

/// Parses a decimal numeral as a `usize`; `None` on an empty string, a
/// non-digit, or a value that does not fit.
pub fn parse_index_digits(s: &str) -> (r: Option<usize>)
    ensures
        match r {
            Some(v) => valid_index_digits(s@) && v == digits_val(s@),
            None => !valid_index_digits(s@),
        },
{
    let len: usize = s.unicode_len();
    if len == 0 {
        return None;
    }
    let mut acc: usize = 0;
    let mut i: usize = 0;
    proof {
        assert(s@.subrange(0, 0) =~= Seq::<char>::empty());
    }
    while i < len
        invariant
            i <= len,
            len == s@.len(),
            forall|k: int| 0 <= k < i ==> is_digit(s@[k]),
            acc == digits_val(s@.subrange(0, i as int)),
        decreases len - i,
    {
        let c = s.get_char(i);
        let cv = c as u32;
        if cv < 48 || cv > 57 {
            return None;
        }
        let d: usize = (cv - 48) as usize;
        proof {
            assert(s@.subrange(0, i as int + 1).drop_last() =~= s@.subrange(0, i as int));
            assert(s@.subrange(0, i as int + 1).last() == c);
        }
        let room: usize = (usize::MAX - d) / 10;
        proof {
            let q = room as int;
            assert(usize::MAX - d == 10 * q + (usize::MAX - d) as int % 10);
            assert(0 <= (usize::MAX - d) as int % 10 < 10);
        }
        if acc > room {
            proof {
                assert(acc * 10 + d > usize::MAX);
                if valid_index_digits(s@) {
                    lemma_digits_prefix_le(s@, i as int + 1);
                }
            }
            return None;
        }
        acc = acc * 10 + d;
        i = i + 1;
    }
    proof {
        assert(s@.subrange(0, len as int) =~= s@);
    }
    Some(acc)
}

/// Finds the first query marker `?n=`.
fn find_marker(s: &str) -> (r: Option<usize>)
    ensures
        match r {
            Some(k) => find_marker_from(s@, 0) == k as int,
            None => find_marker_from(s@, 0) == -1,
        },
{
    let len: usize = s.unicode_len();
    if len < 3 {
        return None;
    }
    let mut i: usize = 0;
    while i <= len - 3
        invariant
            3 <= len,
            i <= len - 2,
            len == s@.len(),
            find_marker_from(s@, 0) == find_marker_from(s@, i as int),
        decreases len - i,
    {
        let c0 = s.get_char(i);
        let c1 = s.get_char(i + 1);
        let c2 = s.get_char(i + 2);
        if c0 == '?' && c1 == 'n' && c2 == '=' {
            return Some(i);
        }
        i = i + 1;
    }
    None
}

/// Finds the first occurrence of `c`.
fn find_char(s: &str, c: char) -> (r: Option<usize>)
    ensures
        match r {
            Some(k) => find_char_from(s@, c, 0) == k as int,
            None => find_char_from(s@, c, 0) == -1,
        },
{
    let len: usize = s.unicode_len();
    let mut i: usize = 0;
    while i < len
        invariant
            i <= len,
            len == s@.len(),
            find_char_from(s@, c, 0) == find_char_from(s@, c, i as int),
        decreases len - i,
    {
        if s.get_char(i) == c {
            return Some(i);
        }
        i = i + 1;
    }
    None
}

/// Extracts the positional index of a resource request, as `query_index`
/// describes.
pub fn parse_query_index(uri: &str) -> (r: Option<usize>)
    ensures
        match r {
            Some(v) => query_index(uri@) == Some(v as nat),
            None => query_index(uri@) is None,
        },
{
    proof {
        lemma_find_marker_bounds(uri@, 0);
        lemma_find_char_bounds(uri@, '&', 0);
    }
    let qi: usize = match find_marker(uri) {
        Some(k) => k,
        None => {
            return None;
        },
    };
    let amp: usize = match find_char(uri, '&') {
        Some(k) => k,
        None => {
            return None;
        },
    };
    if amp <= qi || amp - qi < 3 {
        return None;
    }
    let digits = uri.substring_char(qi + 3, amp);
    parse_index_digits(digits)
}

/// A found marker lies inside the string.
proof fn lemma_find_marker_bounds(s: Seq<char>, from: int)
    requires
        0 <= from,
    ensures
        find_marker_from(s, from) == -1 || (from <= find_marker_from(s, from) && find_marker_from(
            s,
            from,
        ) + 3 <= s.len()),
    decreases s.len() - from,
{
    if from + 3 <= s.len() && !marker_at(s, from) {
        lemma_find_marker_bounds(s, from + 1);
    }
}

/// A found character lies inside the string.
proof fn lemma_find_char_bounds(s: Seq<char>, c: char, from: int)
    requires
        0 <= from,
    ensures
        find_char_from(s, c, from) == -1 || (from <= find_char_from(s, c, from) && find_char_from(
            s,
            c,
            from,
        ) < s.len()),
    decreases s.len() - from,
{
    if from < s.len() && s[from] != c {
        lemma_find_char_bounds(s, c, from + 1);
    }
}

/// A resolved image request: the file to read and the content type to
/// serve it under.
pub struct ImageTarget {
    /// The full path of the snapshot entry.
    pub path: String,
    /// The content type, `image/<lowercased-extension>`.
    pub mime: String,
}

/// Resolves a resource request against the current snapshot.  The request
/// succeeds only for a GET whose query carries a well-formed index that
/// names a snapshot entry with an allow-listed image extension; everything
/// else is `None` (served as not-found).
pub fn resolve_request(nav: &Navigator, method: &str, uri: &str) -> (r: Option<ImageTarget>)
    ensures
        match r {
            Some(t) => {
                &&& method@ == "GET"@
                &&& query_index(uri@) is Some
                &&& query_index(uri@)->Some_0 < nav@.entries.len()
                &&& {
                    let e = nav@.entries[query_index(uri@)->Some_0 as int];
                    &&& t.path == e.path
                    &&& extension_of(e.path@) is Some
                    &&& image_mime(extension_of(e.path@)->Some_0) == Some::<Seq<char>>(t.mime@)
                }
            },
            None => {
                ||| method@ != "GET"@
                ||| query_index(uri@) is None
                ||| query_index(uri@)->Some_0 >= nav@.entries.len()
                ||| extension_of(nav@.entries[query_index(uri@)->Some_0 as int].path@) is None
                ||| !is_img_extension_spec(
                    extension_of(nav@.entries[query_index(uri@)->Some_0 as int].path@)->Some_0,
                )
            },
        },
        r is Some <==> {
            &&& method@ == "GET"@
            &&& query_index(uri@) is Some
            &&& query_index(uri@)->Some_0 < nav@.entries.len()
            &&& extension_of(nav@.entries[query_index(uri@)->Some_0 as int].path@) is Some
            &&& is_img_extension_spec(
                extension_of(nav@.entries[query_index(uri@)->Some_0 as int].path@)->Some_0,
            )
        },
{
    if !crate::text::str_eq(method, "GET") {
        return None;
    }
    let n: usize = match parse_query_index(uri) {
        Some(n) => n,
        None => {
            return None;
        },
    };
    let entries = nav.snapshot_entries();
    if n >= entries.len() {
        return None;
    }
    let ext: String = match extension(entries[n].path.as_str()) {
        Some(e) => e,
        None => {
            return None;
        },
    };
    if !is_img_extension(ext.as_str()) {
        return None;
    }
    let mime: String = match mime_for_extension(ext.as_str()) {
        Some(m) => m,
        None => {
            proof {
                crate::image::lemma_image_mime_iff_img(ext@);
            }
            unreached()
        },
    };
    Some(ImageTarget { path: entries[n].path.clone(), mime })
}

/// One response of the resource protocol.
pub struct ResourceResponse {
    /// The HTTP status: 200 or 404.
    pub status: u16,
    /// The content type of a successful response.
    pub mime: Option<String>,
    /// The body: the file's bytes, or empty on not-found.
    pub body: Vec<u8>,
}

/// The uniform not-found response: 404, no content type, empty body.
pub fn not_found() -> (r: ResourceResponse)
    ensures
        r.status == 404,
        r.mime is None,
        r.body@ == Seq::<u8>::empty(),
{
    let r = ResourceResponse { status: 404, mime: None, body: Vec::new() };
    proof {
        assert(r.body@ =~= Seq::<u8>::empty());
    }
    r
}

/// Shapes the final response of a resolved request from the outcome of
/// reading the target file: its exact bytes under the resolved content
/// type on success, and the uniform not-found response where the read
/// failed.
pub fn respond(target: ImageTarget, read_result: Option<Vec<u8>>) -> (r: ResourceResponse)
    ensures
        match read_result {
            Some(data) => {
                &&& r.status == 200
                &&& r.mime == Some(target.mime)
                &&& r.body@ == data@
            },
            None => {
                &&& r.status == 404
                &&& r.mime is None
                &&& r.body@ == Seq::<u8>::empty()
            },
        },
{
    match read_result {
        Some(data) => ResourceResponse { status: 200, mime: Some(target.mime), body: data },
        None => not_found(),
    }
}

} // verus!
