//! Two image tools that reach a model rather than the local screen.
//!
//! One asks a provider to draw an image from a structured prompt. The other
//! sends a local image and a question to a vision-capable model.
use vstd::prelude::*;
use crate::paths::{path_extension, path_extension_of};
use crate::text::{chars_of, same};

pub mod generate;
pub mod inspect;

verus! {

/// A character with an upper-case ASCII letter turned into the lower-case one.
pub open spec fn ascii_lower(c: char) -> char {
    if 'A' <= c <= 'Z' {
        (c as int + 32) as char
    } else {
        c
    }
}

/// A text with its upper-case ASCII letters turned into lower-case ones.
pub open spec fn ascii_lowered(s: Seq<char>) -> Seq<char> {
    Seq::new(s.len(), |i: int| ascii_lower(s[i]))
}

fn lower_ascii(s: &str) -> (out: String)
    ensures
        out@ == ascii_lowered(s@),
{
    let x = chars_of(s);
    let ghost expected = ascii_lowered(s@);
    let mut out = String::new();
    let mut i: usize = 0;
    assert(expected.take(0) =~= seq![]);
    while i < x.len()
        invariant
            i <= x@.len(),
            x@ == s@,
            expected == ascii_lowered(s@),
            out@ == expected.take(i as int),
        decreases x.len() - i,
    {
        let c: char = x[i];
        let lower: char = if c >= 'A' && c <= 'Z' {
            ((c as u32) as u8 + 32u8) as char
        } else {
            c
        };
        out.push(lower);
        assert(expected[i as int] == lower);
        assert(expected.take(i + 1) =~= expected.take(i as int).push(lower));
        i += 1;
    }
    assert(expected.take(expected.len() as int) =~= expected);
    out
}

/// The media type of images with the extension, for those that vision models accept.
pub open spec fn media_type(ext: Seq<char>) -> Option<Seq<char>> {
    if ext == "png"@ {
        Some("image/png"@)
    } else if ext == "jpg"@ || ext == "jpeg"@ {
        Some("image/jpeg"@)
    } else if ext == "gif"@ {
        Some("image/gif"@)
    } else if ext == "webp"@ {
        Some("image/webp"@)
    } else {
        None
    }
}

/// The media type a path implies.
pub open spec fn media_type_of(path: Seq<char>) -> Option<Seq<char>> {
    match path_extension(path) {
        Some(e) => media_type(ascii_lowered(e)),
        None => None,
    }
}

/// The image media type a path implies, for the handful vision models
/// accept. Nothing for anything else, so the caller reports an unsupported file
/// rather than sending a wrong media type.
pub fn media_type_for(path: &str) -> (r: Option<&'static str>)
    ensures
        match r {
            Some(t) => media_type_of(path@) == Some(t@),
            None => media_type_of(path@) is None,
        },
{
    let ext = match path_extension_of(path) {
        Some(e) => lower_ascii(&e),
        None => {
            return None;
        },
    };
    if same(&ext, "png") {
        Some("image/png")
    } else if same(&ext, "jpg") || same(&ext, "jpeg") {
        Some("image/jpeg")
    } else if same(&ext, "gif") {
        Some("image/gif")
    } else if same(&ext, "webp") {
        Some("image/webp")
    } else {
        None
    }
}

/// What a file is taken for goes by its extension, whatever the case of its letters.
pub proof fn an_extension_goes_by_its_letters(ext: Seq<char>)
    ensures
        ascii_lowered(ascii_lowered(ext)) == ascii_lowered(ext),
        ascii_lowered(ext).len() == ext.len(),
        forall|i: int|
            0 <= i < ext.len() && !('A' <= ext[i] <= 'Z') ==> #[trigger] ascii_lowered(ext)[i]
                == ext[i],
{
    assert forall|i: int| 0 <= i < ext.len() implies ascii_lower(
        #[trigger] ascii_lowered(ext)[i],
    ) == ascii_lowered(ext)[i] by {}
    assert(ascii_lowered(ascii_lowered(ext)) =~= ascii_lowered(ext));
}

/// Each kind of image has its own media type, and no other extension has one.
pub proof fn each_image_has_its_type(ext: Seq<char>)
    ensures
        media_type(ext) == Some("image/png"@) <==> ext == "png"@,
        media_type(ext) == Some("image/jpeg"@) <==> ext == "jpg"@ || ext == "jpeg"@,
        media_type(ext) == Some("image/gif"@) <==> ext == "gif"@,
        media_type(ext) == Some("image/webp"@) <==> ext == "webp"@,
        media_type(ext) is None <==> ext != "png"@ && ext != "jpg"@ && ext != "jpeg"@ && ext
            != "gif"@ && ext != "webp"@,
{
    reveal_strlit("png");
    reveal_strlit("jpg");
    reveal_strlit("jpeg");
    reveal_strlit("gif");
    reveal_strlit("webp");
    reveal_strlit("image/png");
    reveal_strlit("image/jpeg");
    reveal_strlit("image/gif");
    reveal_strlit("image/webp");
    assert("png"@[0] == 'p' && "jpg"@[0] == 'j' && "jpeg"@[0] == 'j' && "gif"@[0] == 'g'
        && "webp"@[0] == 'w');
    assert("image/png"@[6] == 'p' && "image/jpeg"@[6] == 'j' && "image/gif"@[6] == 'g'
        && "image/webp"@[6] == 'w');
}

} // verus!
