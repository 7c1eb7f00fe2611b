use image_crunch::formats::OutputFormat;
use image_crunch::processor::{
    reduction_percent_of, CompressionType, Encoding, ImageProcessor, ProcessError,
    ProcessingOptions, ProcessingResult, FULL_PERCENT,
};

fn options(width: Option<u32>, height: Option<u32>) -> ProcessingOptions {
    ProcessingOptions {
        width,
        height,
        ..ProcessingOptions::default()
    }
}

#[test]
fn default_options() {
    let o = ProcessingOptions::default();
    assert_eq!(o.format, OutputFormat::WebP);
    assert_eq!(o.quality, 80);
    assert_eq!(o.width, None);
    assert_eq!(o.height, None);
    assert!(!o.keep_metadata);
    assert_eq!(o.compression, CompressionType::Lossy);
}

#[test]
fn reduction_edge_cases() {
    assert_eq!(reduction_percent_of(1234, 1234), 0);
    assert_eq!(reduction_percent_of(1234, 0), FULL_PERCENT);
    assert_eq!(reduction_percent_of(0, 0), 0);
    assert_eq!(reduction_percent_of(0, 500), 0);
}

#[test]
fn reduction_values() {
    assert_eq!(reduction_percent_of(1000, 750), 25_000_000);
    assert_eq!(reduction_percent_of(3, 2), 33_333_333);
    assert_eq!(reduction_percent_of(100, 150), -50_000_000);
    assert_eq!(reduction_percent_of(3, 4), -33_333_333);
    assert_eq!(
        reduction_percent_of(1, u64::MAX),
        -((u64::MAX as i128 - 1) * FULL_PERCENT)
    );
}

#[test]
fn result_reduction_uses_its_sizes() {
    let r = ProcessingResult::succeeded("a.png".to_string(), "out/a.webp".to_string(), 200, 50);
    assert!(r.success);
    assert_eq!(r.error, None);
    assert_eq!(r.reduction_percent(), 75_000_000);
}

#[test]
fn failed_result_carries_the_message() {
    let e = ProcessError::ReadError("corrupt".to_string());
    let r = ProcessingResult::failed("b.png".to_string(), "out/b.webp".to_string(), &e);
    assert!(!r.success);
    assert_eq!(r.original_size, 0);
    assert_eq!(r.output_size, 0);
    assert_eq!(r.reduction_percent(), 0);
    assert_eq!(r.error.as_deref(), Some("Failed to read image: corrupt"));
    assert_eq!(r.original_path, "b.png");
    assert_eq!(r.output_path, "out/b.webp");
}

#[test]
fn error_messages() {
    assert_eq!(ProcessError::ReadError("x".to_string()).message(), "Failed to read image: x");
    assert_eq!(ProcessError::WriteError("disk full".to_string()).message(), "Failed to write image: disk full");
    assert_eq!(ProcessError::UnsupportedFormat("ico".to_string()).message(), "Unsupported format: ico");
    assert_eq!(ProcessError::ProcessingFailed("oom".to_string()).message(), "Processing failed: oom");
}

#[test]
fn resize_with_both_sides_is_exact() {
    assert_eq!(ImageProcessor::apply_resize(1000, 500, &options(Some(300), Some(300))), Some((300, 300)));
}

#[test]
fn resize_with_width_keeps_aspect() {
    assert_eq!(ImageProcessor::apply_resize(1000, 500, &options(Some(300), None)), Some((300, 150)));
    assert_eq!(ImageProcessor::apply_resize(3, 2, &options(Some(4), None)), Some((4, 2)));
    assert_eq!(ImageProcessor::apply_resize(640, 480, &options(Some(100), None)), Some((100, 75)));
}

#[test]
fn resize_with_height_keeps_aspect() {
    assert_eq!(ImageProcessor::apply_resize(1000, 500, &options(None, Some(100))), Some((200, 100)));
    assert_eq!(ImageProcessor::apply_resize(7, 3, &options(None, Some(2))), Some((4, 2)));
}

#[test]
fn resize_without_sides_keeps_the_image() {
    assert_eq!(ImageProcessor::apply_resize(1000, 500, &options(None, None)), None);
}

#[test]
fn resize_scaled_side_is_capped() {
    assert_eq!(
        ImageProcessor::apply_resize(1, u32::MAX, &options(Some(2), None)),
        Some((2, u32::MAX))
    );
    assert_eq!(ImageProcessor::apply_resize(0, 10, &options(Some(5), None)), Some((5, 0)));
}

#[test]
fn encodings() {
    let mut o = ProcessingOptions::default();
    assert_eq!(ImageProcessor::encoding(&o), Encoding::WebPLossy { quality: 80 });
    o.compression = CompressionType::Lossless;
    assert_eq!(ImageProcessor::encoding(&o), Encoding::WebPLossless);
    o.format = OutputFormat::Jpeg;
    o.quality = 0;
    assert_eq!(ImageProcessor::encoding(&o), Encoding::Jpeg { quality: 1 });
    o.quality = 250;
    assert_eq!(ImageProcessor::encoding(&o), Encoding::Jpeg { quality: 100 });
    o.format = OutputFormat::WebP;
    o.compression = CompressionType::Lossy;
    assert_eq!(ImageProcessor::encoding(&o), Encoding::WebPLossy { quality: 100 });
    o.format = OutputFormat::Png;
    assert_eq!(ImageProcessor::encoding(&o), Encoding::Png);
    o.format = OutputFormat::Gif;
    assert_eq!(ImageProcessor::encoding(&o), Encoding::Gif);
    o.format = OutputFormat::Bmp;
    assert_eq!(ImageProcessor::encoding(&o), Encoding::Bmp);
    o.format = OutputFormat::Tiff;
    assert_eq!(ImageProcessor::encoding(&o), Encoding::Tiff);
}
