//! Content types: image formats recognised by their leading bytes, and the
//! content type of a static file by its extension.
use vstd::prelude::*;
use vstd::string::StrSliceExecFns;
use crate::text::same_text;

verus! {

/// The image formats the store accepts.
#[derive(Clone, Copy, Debug, PartialEq, Eq, Structural)]
pub enum ImageFormat {
    Png,
    Jpeg,
    Gif,
    Webp,
    Bmp,
}

/// The format that the leading bytes announce, if any.
pub open spec fn format_of(b: Seq<u8>) -> Option<ImageFormat> {
    if b.len() >= 8 && b[0] == 0x89u8 && b[1] == 0x50u8 && b[2] == 0x4eu8 && b[3] == 0x47u8
        && b[4] == 0x0du8 && b[5] == 0x0au8 && b[6] == 0x1au8 && b[7] == 0x0au8 {
        Some(ImageFormat::Png)
    } else if b.len() >= 3 && b[0] == 0xffu8 && b[1] == 0xd8u8 && b[2] == 0xffu8 {
        Some(ImageFormat::Jpeg)
    } else if b.len() >= 6 && b[0] == 0x47u8 && b[1] == 0x49u8 && b[2] == 0x46u8 && b[3] == 0x38u8
        && (b[4] == 0x37u8 || b[4] == 0x39u8) && b[5] == 0x61u8 {
        Some(ImageFormat::Gif)
    } else if b.len() >= 12 && b[0] == 0x52u8 && b[1] == 0x49u8 && b[2] == 0x46u8 && b[3] == 0x46u8
        && b[8] == 0x57u8 && b[9] == 0x45u8 && b[10] == 0x42u8 && b[11] == 0x50u8 {
        Some(ImageFormat::Webp)
    } else if b.len() >= 2 && b[0] == 0x42u8 && b[1] == 0x4du8 {
        Some(ImageFormat::Bmp)
    } else {
        None
    }
}

pub open spec fn mime_of(f: ImageFormat) -> Seq<char> {
    match f {
        ImageFormat::Png => "image/png"@,
        ImageFormat::Jpeg => "image/jpeg"@,
        ImageFormat::Gif => "image/gif"@,
        ImageFormat::Webp => "image/webp"@,
        ImageFormat::Bmp => "image/bmp"@,
    }
}

pub open spec fn extension_of(f: ImageFormat) -> Seq<char> {
    match f {
        ImageFormat::Png => "png"@,
        ImageFormat::Jpeg => "jpg"@,
        ImageFormat::Gif => "gif"@,
        ImageFormat::Webp => "webp"@,
        ImageFormat::Bmp => "bmp"@,
    }
}

/// Recognises an image by its signature (PNG, JPEG, GIF87a/89a, WebP, BMP).
pub fn detect_file_type(b: &[u8]) -> (r: Option<ImageFormat>)
    ensures
        r == format_of(b@),
{
    let n = b.len();
    if n >= 8 && b[0] == 0x89u8 && b[1] == 0x50u8 && b[2] == 0x4eu8 && b[3] == 0x47u8
        && b[4] == 0x0du8 && b[5] == 0x0au8 && b[6] == 0x1au8 && b[7] == 0x0au8 {
        Some(ImageFormat::Png)
    } else if n >= 3 && b[0] == 0xffu8 && b[1] == 0xd8u8 && b[2] == 0xffu8 {
        Some(ImageFormat::Jpeg)
    } else if n >= 6 && b[0] == 0x47u8 && b[1] == 0x49u8 && b[2] == 0x46u8 && b[3] == 0x38u8
        && (b[4] == 0x37u8 || b[4] == 0x39u8) && b[5] == 0x61u8 {
        Some(ImageFormat::Gif)
    } else if n >= 12 && b[0] == 0x52u8 && b[1] == 0x49u8 && b[2] == 0x46u8 && b[3] == 0x46u8
        && b[8] == 0x57u8 && b[9] == 0x45u8 && b[10] == 0x42u8 && b[11] == 0x50u8 {
        Some(ImageFormat::Webp)
    } else if n >= 2 && b[0] == 0x42u8 && b[1] == 0x4du8 {
        Some(ImageFormat::Bmp)
    } else {
        None
    }
}

impl ImageFormat {
    pub fn mime_type(&self) -> (r: String)
        ensures
            r@ == mime_of(*self),
    {
        match self {
            ImageFormat::Png => "image/png".to_owned(),
            ImageFormat::Jpeg => "image/jpeg".to_owned(),
            ImageFormat::Gif => "image/gif".to_owned(),
            ImageFormat::Webp => "image/webp".to_owned(),
            ImageFormat::Bmp => "image/bmp".to_owned(),
        }
    }

    pub fn extension(&self) -> (r: String)
        ensures
            r@ == extension_of(*self),
    {
        match self {
            ImageFormat::Png => "png".to_owned(),
            ImageFormat::Jpeg => "jpg".to_owned(),
            ImageFormat::Gif => "gif".to_owned(),
            ImageFormat::Webp => "webp".to_owned(),
            ImageFormat::Bmp => "bmp".to_owned(),
        }
    }
}

/// Index of the last `c` in `s`, or -1.
pub open spec fn last_index(s: Seq<char>, c: char) -> int
    decreases s.len(),
{
    if s.len() == 0 {
        -1
    } else if s.last() == c {
        s.len() - 1
    } else {
        last_index(s.drop_last(), c)
    }
}

pub proof fn lemma_last_index_range(s: Seq<char>, c: char)
    ensures
        -1 <= last_index(s, c) < s.len(),
    decreases s.len(),
{
    if s.len() > 0 {
        lemma_last_index_range(s.drop_last(), c);
    }
}

/// The last segment of a `/`-separated path.
pub open spec fn file_name_of(p: Seq<char>) -> Seq<char> {
    p.subrange(last_index(p, '/') + 1, p.len() as int)
}

/// The text after the last `.` of the file name, when that `.` does not open
/// the name; `..` has none.
pub open spec fn extension_of_path(p: Seq<char>) -> Option<Seq<char>> {
    let name = file_name_of(p);
    let d = last_index(name, '.');
    if name == ".."@ || d <= 0 {
        None
    } else {
        Some(name.subrange(d + 1, name.len() as int))
    }
}

pub open spec fn content_type_for(ext: Option<Seq<char>>) -> Seq<char> {
    match ext {
        Some(e) => if e == "html"@ {
            "text/html; charset=utf-8"@
        } else if e == "css"@ {
            "text/css; charset=utf-8"@
        } else if e == "js"@ {
            "application/javascript; charset=utf-8"@
        } else if e == "json"@ {
            "application/json; charset=utf-8"@
        } else if e == "png"@ {
            "image/png"@
        } else if e == "jpg"@ || e == "jpeg"@ {
            "image/jpeg"@
        } else if e == "gif"@ {
            "image/gif"@
        } else if e == "webp"@ {
            "image/webp"@
        } else if e == "svg"@ {
            "image/svg+xml"@
        } else if e == "ico"@ {
            "image/x-icon"@
        } else {
            "application/octet-stream"@
        },
        None => "application/octet-stream"@,
    }
}

fn last_index_of(s: &str, c: char) -> (r: i64)
    requires
        s@.len() < i64::MAX,
    ensures
        r == last_index(s@, c),
        -1 <= r < s@.len(),
{
    proof {
        lemma_last_index_range(s@, c);
    }
    let n = s.unicode_len();
    let mut i: usize = n;
    assert(s@ =~= s@.subrange(0, n as int));
    while i > 0
        invariant
            i <= s@.len(),
            n == s@.len(),
            s@.len() < i64::MAX,
            last_index(s@, c) == last_index(s@.subrange(0, i as int), c),
        decreases i,
    {
        assert(s@.subrange(0, i as int).drop_last() =~= s@.subrange(0, i as int - 1));
        if s.get_char(i - 1) == c {
            assert(s@.subrange(0, i as int).last() == c);
            return (i - 1) as i64;
        }
        i = i - 1;
    }
    assert(s@.subrange(0, 0) =~= Seq::<char>::empty());
    -1
}

/// The content type of a static file, chosen by its extension.
pub fn get_content_type(file_path: &str) -> (r: &'static str)
    requires
        file_path@.len() < i64::MAX,
    ensures
        r@ == content_type_for(extension_of_path(file_path@)),
{
    let n = file_path.unicode_len();
    let slash = last_index_of(file_path, '/');
    let start = (slash + 1) as usize;
    let name = file_path.substring_char(start, n);
    let dot = last_index_of(name, '.');
    if same_text(name, "..") || dot <= 0 {
        return "application/octet-stream";
    }
    let ext = name.substring_char((dot + 1) as usize, name.unicode_len());
    if same_text(ext, "html") {
        "text/html; charset=utf-8"
    } else if same_text(ext, "css") {
        "text/css; charset=utf-8"
    } else if same_text(ext, "js") {
        "application/javascript; charset=utf-8"
    } else if same_text(ext, "json") {
        "application/json; charset=utf-8"
    } else if same_text(ext, "png") {
        "image/png"
    } else if same_text(ext, "jpg") || same_text(ext, "jpeg") {
        "image/jpeg"
    } else if same_text(ext, "gif") {
        "image/gif"
    } else if same_text(ext, "webp") {
        "image/webp"
    } else if same_text(ext, "svg") {
        "image/svg+xml"
    } else if same_text(ext, "ico") {
        "image/x-icon"
    } else {
        "application/octet-stream"
    }
}

} // verus!
