//! Classification of file extensions into displayable image types, and the
//! content type served for each.

use vstd::prelude::*;
use vstd::string::StrSliceExecFns;
use vstd::string::StringExecFns;

verus! {

/// The scalar value of `c` with an ASCII upper-case letter folded to lower
/// case.
pub open spec fn lower32(c: char) -> u32 {
    if 65 <= c as u32 && c as u32 <= 90 {
        (c as u32 + 32) as u32
    } else {
        c as u32
    }
}

/// Equality of character sequences up to ASCII case.
pub open spec fn eq_ignore_ascii_case(a: Seq<char>, b: Seq<char>) -> bool {
    a.len() == b.len() && forall|i: int| 0 <= i < a.len() ==> lower32(a[i]) == lower32(b[i])
}

/// Whether the extension names a displayable image type: a case-insensitive
/// match against the allow-list png, jpg, jpeg, gif, bmp, webp.
pub open spec fn is_img_extension_spec(s: Seq<char>) -> bool {
    ||| eq_ignore_ascii_case(s, "png"@)
    ||| eq_ignore_ascii_case(s, "jpg"@)
    ||| eq_ignore_ascii_case(s, "jpeg"@)
    ||| eq_ignore_ascii_case(s, "gif"@)
    ||| eq_ignore_ascii_case(s, "bmp"@)
    ||| eq_ignore_ascii_case(s, "webp"@)
}

/// The `image/<lowercased-extension>` content type served for an
/// allow-listed extension; anything else has none.
pub open spec fn image_mime(s: Seq<char>) -> Option<Seq<char>> {
    if eq_ignore_ascii_case(s, "png"@) {
        Some("image/png"@)
    } else if eq_ignore_ascii_case(s, "jpg"@) {
        Some("image/jpg"@)
    } else if eq_ignore_ascii_case(s, "jpeg"@) {
        Some("image/jpeg"@)
    } else if eq_ignore_ascii_case(s, "gif"@) {
        Some("image/gif"@)
    } else if eq_ignore_ascii_case(s, "bmp"@) {
        Some("image/bmp"@)
    } else if eq_ignore_ascii_case(s, "webp"@) {
        Some("image/webp"@)
    } else {
        None
    }
}

/// An extension is a displayable image type exactly when a content type is
/// served for it.
pub proof fn lemma_image_mime_iff_img(s: Seq<char>)
    ensures
        is_img_extension_spec(s) <==> image_mime(s) is Some,
{
}

/// The allow-list excludes plain text: a `txt` extension, in any casing,
/// is never a displayable image, so the resource protocol serves such an
/// entry not-found whatever the file holds.
pub proof fn lemma_txt_never_an_image(s: Seq<char>)
    requires
        eq_ignore_ascii_case(s, "txt"@),
    ensures
        !is_img_extension_spec(s),
{
    reveal_strlit("txt");
    reveal_strlit("png");
    reveal_strlit("jpg");
    reveal_strlit("jpeg");
    reveal_strlit("gif");
    reveal_strlit("bmp");
    reveal_strlit("webp");
    assert(lower32(s[0]) == lower32("txt"@[0]));
    if eq_ignore_ascii_case(s, "png"@) {
        assert(lower32(s[0]) == lower32("png"@[0]));
    }
    if eq_ignore_ascii_case(s, "jpg"@) {
        assert(lower32(s[0]) == lower32("jpg"@[0]));
    }
    if eq_ignore_ascii_case(s, "gif"@) {
        assert(lower32(s[0]) == lower32("gif"@[0]));
    }
    if eq_ignore_ascii_case(s, "bmp"@) {
        assert(lower32(s[0]) == lower32("bmp"@[0]));
    }
}

/// A `png` extension, in any casing, is served under content type
/// `image/png`.
pub proof fn lemma_png_mime(s: Seq<char>)
    requires
        eq_ignore_ascii_case(s, "png"@),
    ensures
        image_mime(s) == Some("image/png"@),
{
}

/// Equality of two strings up to ASCII case.
fn eq_ci(a: &str, b: &str) -> (r: bool)
    ensures
        r == eq_ignore_ascii_case(a@, b@),
{
    let alen: usize = a.unicode_len();
    let blen: usize = b.unicode_len();
    if alen != blen {
        return false;
    }
    let mut i: usize = 0;
    while i < alen
        invariant
            alen == a@.len(),
            alen == b@.len(),
            i <= alen,
            forall|k: int| 0 <= k < i ==> lower32(a@[k]) == lower32(b@[k]),
        decreases alen - i,
    {
        let ca = a.get_char(i) as u32;
        let cb = b.get_char(i) as u32;
        let la: u32 = if 65 <= ca && ca <= 90 {
            ca + 32
        } else {
            ca
        };
        let lb: u32 = if 65 <= cb && cb <= 90 {
            cb + 32
        } else {
            cb
        };
        if la != lb {
            return false;
        }
        i = i + 1;
    }
    true
}

/// Whether the extension is on the displayable-image allow-list,
/// case-insensitively.
pub fn is_img_extension(extension: &str) -> (r: bool)
    ensures
        r == is_img_extension_spec(extension@),
{
    eq_ci(extension, "png") || eq_ci(extension, "jpg") || eq_ci(extension, "jpeg") || eq_ci(
        extension,
        "gif",
    ) || eq_ci(extension, "bmp") || eq_ci(extension, "webp")
}

/// The content type served for the extension, where it is an image type.
pub fn mime_for_extension(extension: &str) -> (r: Option<String>)
    ensures
        match r {
            Some(m) => image_mime(extension@) == Some::<Seq<char>>(m@),
            None => image_mime(extension@) is None,
        },
{
    if eq_ci(extension, "png") {
        Some(String::from_str("image/png"))
    } else if eq_ci(extension, "jpg") {
        Some(String::from_str("image/jpg"))
    } else if eq_ci(extension, "jpeg") {
        Some(String::from_str("image/jpeg"))
    } else if eq_ci(extension, "gif") {
        Some(String::from_str("image/gif"))
    } else if eq_ci(extension, "bmp") {
        Some(String::from_str("image/bmp"))
    } else if eq_ci(extension, "webp") {
        Some(String::from_str("image/webp"))
    } else {
        None
    }
}

} // verus!
