use vstd::prelude::*;

verus! {

/// Image formats accepted as input.
#[derive(Debug, Clone, Copy, PartialEq, Eq, Structural)]
pub enum InputFormat {
    Jpeg,
    Png,
    Gif,
    Bmp,
    Tiff,
    WebP,
}

/// Image formats that can be written.
#[derive(Debug, Clone, Copy, PartialEq, Eq, Structural)]
pub enum OutputFormat {
    Jpeg,
    Png,
    Gif,
    Bmp,
    Tiff,
    WebP,
}

/// The input format named by an extension that is already lower case.
/// `jpg`/`jpeg` and `tif`/`tiff` are synonyms.
pub open spec fn input_format_for(ext: Seq<char>) -> Option<InputFormat> {
    if ext == "jpg"@ || ext == "jpeg"@ {
        Some(InputFormat::Jpeg)
    } else if ext == "png"@ {
        Some(InputFormat::Png)
    } else if ext == "gif"@ {
        Some(InputFormat::Gif)
    } else if ext == "bmp"@ {
        Some(InputFormat::Bmp)
    } else if ext == "tiff"@ || ext == "tif"@ {
        Some(InputFormat::Tiff)
    } else if ext == "webp"@ {
        Some(InputFormat::WebP)
    } else {
        None
    }
}

/// The file extension written for an output format.
pub open spec fn output_extension(f: OutputFormat) -> Seq<char> {
    match f {
        OutputFormat::Jpeg => "jpg"@,
        OutputFormat::Png => "png"@,
        OutputFormat::Gif => "gif"@,
        OutputFormat::Bmp => "bmp"@,
        OutputFormat::Tiff => "tiff"@,
        OutputFormat::WebP => "webp"@,
    }
}

/// The MIME type of an output format.
pub open spec fn output_mime_type(f: OutputFormat) -> Seq<char> {
    match f {
        OutputFormat::Jpeg => "image/jpeg"@,
        OutputFormat::Png => "image/png"@,
        OutputFormat::Gif => "image/gif"@,
        OutputFormat::Bmp => "image/bmp"@,
        OutputFormat::Tiff => "image/tiff"@,
        OutputFormat::WebP => "image/webp"@,
    }
}

/// What `str::to_lowercase` makes of a text.
pub uninterp spec fn lower_of(s: Seq<char>) -> Seq<char>;

/// Relies on `str::to_lowercase`: the Unicode lower-case mapping of each
/// character, which depends on the characters alone.
#[verifier::external_body]
fn lowercase(s: &str) -> (r: String)
    ensures
        r@ == lower_of(s@),
{
    s.to_lowercase()
}

/// Character-by-character comparison of two texts.
fn same_text(a: &str, b: &str) -> (r: bool)
    ensures
        r == (a@ == b@),
{
    let n = a.unicode_len();
    if n != b.unicode_len() {
        return false;
    }
    let mut i: usize = 0;
    while i < n
        invariant
            n == a@.len(),
            n == b@.len(),
            i <= n,
            forall|j: int| 0 <= j < i ==> a@[j] == b@[j],
        decreases n - i,
    {
        if a.get_char(i) != b.get_char(i) {
            return false;
        }
        i = i + 1;
    }
    assert(a@ =~= b@);
    true
}

impl InputFormat {
    /// The format named by an extension that is already lower case.
    pub fn from_lowercase_extension(ext: &str) -> (r: Option<InputFormat>)
        ensures
            r == input_format_for(ext@),
    {
        if same_text(ext, "jpg") || same_text(ext, "jpeg") {
            Some(InputFormat::Jpeg)
        } else if same_text(ext, "png") {
            Some(InputFormat::Png)
        } else if same_text(ext, "gif") {
            Some(InputFormat::Gif)
        } else if same_text(ext, "bmp") {
            Some(InputFormat::Bmp)
        } else if same_text(ext, "tiff") || same_text(ext, "tif") {
            Some(InputFormat::Tiff)
        } else if same_text(ext, "webp") {
            Some(InputFormat::WebP)
        } else {
            None
        }
    }

    /// The format named by a file extension, in any letter case.
    pub fn from_extension(ext: &str) -> (r: Option<InputFormat>)
        ensures
            r == input_format_for(lower_of(ext@)),
    {
        let lower = lowercase(ext);
        Self::from_lowercase_extension(lower.as_str())
    }

    /// Whether a file extension, in any letter case, names a known input format.
    pub fn is_supported(ext: &str) -> (r: bool)
        ensures
            r == input_format_for(lower_of(ext@)) is Some,
    {
        Self::from_extension(ext).is_some()
    }
}

impl OutputFormat {
    /// The file extension to write for this format.
    pub fn extension(&self) -> (r: &'static str)
        ensures
            r@ == output_extension(*self),
    {
        match self {
            OutputFormat::Jpeg => "jpg",
            OutputFormat::Png => "png",
            OutputFormat::Gif => "gif",
            OutputFormat::Bmp => "bmp",
            OutputFormat::Tiff => "tiff",
            OutputFormat::WebP => "webp",
        }
    }

    /// The MIME type of this format.
    pub fn mime_type(&self) -> (r: &'static str)
        ensures
            r@ == output_mime_type(*self),
    {
        match self {
            OutputFormat::Jpeg => "image/jpeg",
            OutputFormat::Png => "image/png",
            OutputFormat::Gif => "image/gif",
            OutputFormat::Bmp => "image/bmp",
            OutputFormat::Tiff => "image/tiff",
            OutputFormat::WebP => "image/webp",
        }
    }
}

/// A file found while scanning, with its extension when it has one.
#[derive(Debug, Clone)]
pub struct Candidate {
    pub path: String,
    pub extension: Option<String>,
}

/// Whether a found file is an image that can be read, by its extension.
pub open spec fn is_image_candidate(c: Candidate) -> bool {
    match c.extension {
        Some(e) => input_format_for(lower_of(e@)) is Some,
        None => false,
    }
}

/// The paths of the image files among `cs`, in order.
pub open spec fn image_paths(cs: Seq<Candidate>) -> Seq<Seq<char>>
    decreases cs.len(),
{
    if cs.len() == 0 {
        Seq::<Seq<char>>::empty()
    } else {
        let rest = image_paths(cs.drop_last());
        if is_image_candidate(cs.last()) {
            rest.push(cs.last().path@)
        } else {
            rest
        }
    }
}

/// The paths of the image files among the files found, in order: those
/// whose extension names a known input format, in any letter case.
pub fn select_image_files(candidates: &Vec<Candidate>) -> (r: Vec<String>)
    ensures
        r@.len() == image_paths(candidates@).len(),
        forall|k: int| 0 <= k < r@.len() ==> (#[trigger] r@[k])@ == image_paths(candidates@)[k],
{
    let mut out: Vec<String> = Vec::new();
    let mut i: usize = 0;
    assert(candidates@.take(0) =~= Seq::<Candidate>::empty());
    while i < candidates.len()
        invariant
            i <= candidates@.len(),
            out@.len() == image_paths(candidates@.take(i as int)).len(),
            forall|k: int|
                0 <= k < out@.len() ==> (#[trigger] out@[k])@ == image_paths(
                    candidates@.take(i as int),
                )[k],
        decreases candidates@.len() - i,
    {
        let c = &candidates[i];
        assert(candidates@.take(i + 1).drop_last() =~= candidates@.take(i as int));
        assert(candidates@.take(i + 1).last() == candidates@[i as int]);
        let keep = match &c.extension {
            Some(e) => InputFormat::is_supported(e.as_str()),
            None => false,
        };
        if keep {
            out.push(c.path.clone());
        }
        i = i + 1;
    }
    assert(candidates@.take(i as int) =~= candidates@);
    out
}

} // verus!
