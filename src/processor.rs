use vstd::prelude::*;

use crate::formats::OutputFormat;

verus! {

/// Why one image could not be transformed.
#[derive(Debug, Clone)]
pub enum ProcessError {
    /// The source file is missing, unreadable or cannot be decoded.
    ReadError(String),
    /// The destination cannot be written, or the encoder failed.
    WriteError(String),
    /// The requested output format or option combination is not available.
    UnsupportedFormat(String),
    /// Any other failure while transforming.
    ProcessingFailed(String),
}

/// The text that describes an error to a user.
pub open spec fn error_text(e: ProcessError) -> Seq<char> {
    match e {
        ProcessError::ReadError(m) => "Failed to read image: "@ + m@,
        ProcessError::WriteError(m) => "Failed to write image: "@ + m@,
        ProcessError::UnsupportedFormat(m) => "Unsupported format: "@ + m@,
        ProcessError::ProcessingFailed(m) => "Processing failed: "@ + m@,
    }
}

impl ProcessError {
    /// The text that describes this error to a user.
    pub fn message(&self) -> (r: String)
        ensures
            r@ == error_text(*self),
    {
        match self {
            ProcessError::ReadError(m) => String::from_str("Failed to read image: ").concat(
                m.as_str(),
            ),
            ProcessError::WriteError(m) => String::from_str("Failed to write image: ").concat(
                m.as_str(),
            ),
            ProcessError::UnsupportedFormat(m) => String::from_str("Unsupported format: ").concat(
                m.as_str(),
            ),
            ProcessError::ProcessingFailed(m) => String::from_str("Processing failed: ").concat(
                m.as_str(),
            ),
        }
    }
}

/// How an encoder may trade quality for size.
#[derive(Debug, Clone, Copy, PartialEq, Eq, Structural)]
pub enum CompressionType {
    Lossy,
    Lossless,
}

/// The settings shared by every image of one batch.
#[derive(Debug, Clone, Copy)]
pub struct ProcessingOptions {
    /// The format to write.
    pub format: OutputFormat,
    /// Quality from 0 to 100, for lossy encoders; larger values are taken as 100.
    pub quality: u8,
    /// Target width; `None` keeps the original or follows the aspect ratio.
    pub width: Option<u32>,
    /// Target height; `None` keeps the original or follows the aspect ratio.
    pub height: Option<u32>,
    /// Whether metadata such as EXIF should be kept.
    pub keep_metadata: bool,
    /// Lossy or lossless encoding, where the format offers both.
    pub compression: CompressionType,
}

impl Default for ProcessingOptions {
    /// Lossy WebP at quality 80, original size, no metadata.
    fn default() -> (r: Self)
        ensures
            r.format == OutputFormat::WebP,
            r.quality == 80,
            r.width is None,
            r.height is None,
            !r.keep_metadata,
            r.compression == CompressionType::Lossy,
    {
        ProcessingOptions {
            format: OutputFormat::WebP,
            quality: 80,
            width: None,
            height: None,
            keep_metadata: false,
            compression: CompressionType::Lossy,
        }
    }
}

/// A percentage expressed in millionths of a percent: this value is 100%.
pub const FULL_PERCENT: i128 = 100_000_000;

/// Largest magnitude that a reduction between two `u64` sizes can have.
pub const REDUCTION_BOUND: i128 = 0x8000_0000_0000_0000_0000_0000;

/// Relative size decrease from `original` to `output`, in millionths of a
/// percent and rounded toward zero; zero when `original` is zero.
pub open spec fn reduction_of(original: u64, output: u64) -> int {
    if original == 0 {
        0
    } else if output <= original {
        (original - output) * FULL_PERCENT / (original as int)
    } else {
        -((output - original) * FULL_PERCENT / (original as int))
    }
}

/// A reduction between two `u64` sizes stays within `REDUCTION_BOUND`.
pub proof fn lemma_reduction_bounded(original: u64, output: u64)
    ensures
        -REDUCTION_BOUND <= reduction_of(original, output) <= FULL_PERCENT,
{
    if original > 0 {
        let o = original as int;
        if output <= original {
            let x = (original - output) as int;
            assert(x * FULL_PERCENT / o <= FULL_PERCENT) by (nonlinear_arith)
                requires
                    0 <= x <= o,
                    o >= 1,
            {
                assert(x * FULL_PERCENT <= o * FULL_PERCENT);
                assert((o * FULL_PERCENT) / o == FULL_PERCENT);
            }
            assert(x * FULL_PERCENT / o >= 0) by (nonlinear_arith)
                requires
                    0 <= x,
                    o >= 1,
            ;
        } else {
            let x = (output - original) as int;
            assert(x * FULL_PERCENT / o <= x * FULL_PERCENT) by (nonlinear_arith)
                requires
                    0 <= x,
                    o >= 1,
            ;
            assert(x * FULL_PERCENT <= REDUCTION_BOUND) by (nonlinear_arith)
                requires
                    0 <= x < 0x1_0000_0000_0000_0000,
            ;
        }
    }
}

/// An unchanged size is no reduction; an empty output from a non-empty
/// input is a reduction of exactly 100%; an empty input counts as no
/// reduction, whatever the output.
pub proof fn lemma_reduction_edges(size: u64, output: u64)
    ensures
        reduction_of(size, size) == 0,
        size > 0 ==> reduction_of(size, 0) == FULL_PERCENT,
        reduction_of(0, output) == 0,
{
    if size > 0 {
        let o = size as int;
        assert((o * FULL_PERCENT) / o == FULL_PERCENT) by (nonlinear_arith)
            requires
                o > 0,
        ;
    }
}

/// Relative size decrease from `original` to `output`, in millionths of a
/// percent and rounded toward zero; zero when `original` is zero.
pub fn reduction_percent_of(original: u64, output: u64) -> (r: i128)
    ensures
        r == reduction_of(original, output),
        -REDUCTION_BOUND <= r <= FULL_PERCENT,
{
    proof {
        lemma_reduction_bounded(original, output);
    }
    if original == 0 {
        0
    } else if output <= original {
        let num: u128 = (original - output) as u128 * 100_000_000;
        (num / original as u128) as i128
    } else {
        let num: u128 = (output - original) as u128 * 100_000_000;
        -((num / original as u128) as i128)
    }
}

/// What became of one input file.
#[derive(Debug, Clone)]
pub struct ProcessingResult {
    /// Path of the input file.
    pub original_path: String,
    /// Path of the file written, or that would have been written.
    pub output_path: String,
    /// Size of the input file in bytes; zero when processing failed.
    pub original_size: u64,
    /// Size of the output file in bytes; zero when processing failed.
    pub output_size: u64,
    /// Whether the image was written.
    pub success: bool,
    /// Why it was not, when it was not.
    pub error: Option<String>,
}

impl ProcessingResult {
    /// A result for an image that was written.
    pub fn succeeded(
        original_path: String,
        output_path: String,
        original_size: u64,
        output_size: u64,
    ) -> (r: ProcessingResult)
        ensures
            r.original_path == original_path,
            r.output_path == output_path,
            r.original_size == original_size,
            r.output_size == output_size,
            r.success,
            r.error is None,
    {
        ProcessingResult {
            original_path,
            output_path,
            original_size,
            output_size,
            success: true,
            error: None,
        }
    }

    /// A result for an image that failed: sizes zero, and the error's text.
    pub fn failed(original_path: String, output_path: String, error: &ProcessError) -> (r:
        ProcessingResult)
        ensures
            r.original_path == original_path,
            r.output_path == output_path,
            r.original_size == 0,
            r.output_size == 0,
            !r.success,
            r.error matches Some(m) && m@ == error_text(*error),
    {
        ProcessingResult {
            original_path,
            output_path,
            original_size: 0,
            output_size: 0,
            success: false,
            error: Some(error.message()),
        }
    }

    /// Relative size decrease of this image, in millionths of a percent.
    pub fn reduction_percent(&self) -> (r: i128)
        ensures
            r == reduction_of(self.original_size, self.output_size),
            -REDUCTION_BOUND <= r <= FULL_PERCENT,
    {
        reduction_percent_of(self.original_size, self.output_size)
    }
}

/// The length of a side scaled as the other side was: `len * target / side`,
/// rounded down and capped at `u32::MAX`; zero when `side` is zero.
pub open spec fn scaled_side(len: u32, target: u32, side: u32) -> u32 {
    if side == 0 {
        0
    } else if len * target / (side as int) > u32::MAX {
        u32::MAX
    } else {
        (len * target / (side as int)) as u32
    }
}

/// What a preview shows of an image file, without transforming it.
#[derive(Debug, Clone)]
pub struct ImageInfo {
    pub path: String,
    pub width: u32,
    pub height: u32,
    pub size_bytes: u64,
    /// The file's extension as written, or empty.
    pub format: String,
}

/// The size to resize an image of `width` x `height` to, or `None` to keep it.
/// Both targets given: exactly those. One given: the other follows the
/// aspect ratio. Neither: unchanged.
pub open spec fn resize_target(width: u32, height: u32, to_width: Option<u32>, to_height: Option<
    u32,
>) -> Option<(u32, u32)> {
    match (to_width, to_height) {
        (Some(w), Some(h)) => Some((w, h)),
        (Some(w), None) => Some((w, scaled_side(height, w, width))),
        (None, Some(h)) => Some((scaled_side(width, h, height), h)),
        (None, None) => None,
    }
}

/// How an image is to be encoded.
#[derive(Debug, Clone, Copy, PartialEq, Eq, Structural)]
pub enum Encoding {
    /// 8-bit RGB JPEG at a quality from 1 to 100; alpha is dropped.
    Jpeg { quality: u8 },
    /// The format's own lossless encoder.
    Png,
    Gif,
    Bmp,
    Tiff,
    /// Lossless WebP from RGBA.
    WebPLossless,
    /// Lossy WebP from RGBA at a quality from 0 to 100.
    WebPLossy { quality: u8 },
}

/// The encoding that options ask for. Quality is capped at 100 (and JPEG
/// raised to at least 1); PNG, GIF, BMP and TIFF ignore quality and
/// compression.
pub open spec fn encoding_for(options: ProcessingOptions) -> Encoding {
    let q: u8 = if options.quality > 100 {
        100
    } else {
        options.quality
    };
    match options.format {
        OutputFormat::Jpeg => Encoding::Jpeg { quality: if q == 0 { 1 } else { q } },
        OutputFormat::Png => Encoding::Png,
        OutputFormat::Gif => Encoding::Gif,
        OutputFormat::Bmp => Encoding::Bmp,
        OutputFormat::Tiff => Encoding::Tiff,
        OutputFormat::WebP => if options.compression == CompressionType::Lossless {
            Encoding::WebPLossless
        } else {
            Encoding::WebPLossy { quality: q }
        },
    }
}

/// The single-image transform: how an image is resized and encoded.
pub struct ImageProcessor;

impl ImageProcessor {
    /// The side scaled as the other side was: `len * target / side`, rounded
    /// down and capped at `u32::MAX`; zero when `side` is zero.
    fn scale_side(len: u32, target: u32, side: u32) -> (r: u32)
        ensures
            r == scaled_side(len, target, side),
    {
        if side == 0 {
            return 0;
        }
        assert(len as int * target as int <= 0xffff_ffff * 0xffff_ffff) by (nonlinear_arith)
            requires
                len <= 0xffff_ffff,
                target <= 0xffff_ffff,
        ;
        let v: u64 = (len as u64 * target as u64) / side as u64;
        if v > u32::MAX as u64 {
            u32::MAX
        } else {
            v as u32
        }
    }

    /// The size to resize an image of `width` x `height` to, under `options`;
    /// `None` when it is to keep its size.
    pub fn apply_resize(width: u32, height: u32, options: &ProcessingOptions) -> (r: Option<
        (u32, u32),
    >)
        ensures
            r == resize_target(width, height, options.width, options.height),
    {
        match (options.width, options.height) {
            (Some(w), Some(h)) => Some((w, h)),
            (Some(w), None) => Some((w, Self::scale_side(height, w, width))),
            (None, Some(h)) => Some((Self::scale_side(width, h, height), h)),
            (None, None) => None,
        }
    }

    /// The encoding that `options` ask for.
    pub fn encoding(options: &ProcessingOptions) -> (r: Encoding)
        ensures
            r == encoding_for(*options),
    {
        let q: u8 = if options.quality > 100 {
            100
        } else {
            options.quality
        };
        match options.format {
            OutputFormat::Jpeg => Encoding::Jpeg {
                quality: if q == 0 {
                    1
                } else {
                    q
                },
            },
            OutputFormat::Png => Encoding::Png,
            OutputFormat::Gif => Encoding::Gif,
            OutputFormat::Bmp => Encoding::Bmp,
            OutputFormat::Tiff => Encoding::Tiff,
            OutputFormat::WebP => if options.compression == CompressionType::Lossless {
                Encoding::WebPLossless
            } else {
                Encoding::WebPLossy { quality: q }
            },
        }
    }
}

/// Resizing with only a width keeps the aspect ratio to within one pixel:
/// the new height `h'` satisfies `h' * w <= h * w' < (h' + 1) * w`, wherever
/// the exact height fits in a `u32`.
pub proof fn lemma_width_only_keeps_aspect(width: u32, height: u32, to_width: u32)
    requires
        width > 0,
        height * to_width / (width as int) <= u32::MAX,
    ensures
        ({
            let (w, h) = resize_target(width, height, Some(to_width), None).unwrap();
            &&& w == to_width
            &&& h * width <= height * to_width
            &&& height * to_width < (h + 1) * width
        }),
{
    let x = height * to_width;
    let d = width as int;
    let q = x / d;
    assert(q * d <= x && x < (q + 1) * d) by (nonlinear_arith)
        requires
            d > 0,
            x >= 0,
            q == x / d,
    {
        assert(x == d * (x / d) + x % d);
    }
}

/// Resizing with only a height keeps the aspect ratio to within one pixel,
/// wherever the exact width fits in a `u32`.
pub proof fn lemma_height_only_keeps_aspect(width: u32, height: u32, to_height: u32)
    requires
        height > 0,
        width * to_height / (height as int) <= u32::MAX,
    ensures
        ({
            let (w, h) = resize_target(width, height, None, Some(to_height)).unwrap();
            &&& h == to_height
            &&& w * height <= width * to_height
            &&& width * to_height < (w + 1) * height
        }),
{
    let x = width * to_height;
    let d = height as int;
    let q = x / d;
    assert(q * d <= x && x < (q + 1) * d) by (nonlinear_arith)
        requires
            d > 0,
            x >= 0,
            q == x / d,
    {
        assert(x == d * (x / d) + x % d);
    }
}

} // verus!
