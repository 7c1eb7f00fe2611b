use image_crunch::batch::{output_file_name, settle, BatchProgress};
use image_crunch::formats::OutputFormat;
use image_crunch::processor::{ProcessError, ProcessingResult, FULL_PERCENT};
use image_crunch::stats::{
    calculate_batch_stats, calculate_optimal_threads, mean_value, median_value,
};

fn ok(name: &str, original: u64, output: u64) -> ProcessingResult {
    ProcessingResult::succeeded(name.to_string(), format!("out/{}", name), original, output)
}

fn pct(p: i128) -> i128 {
    p * FULL_PERCENT / 100
}

#[test]
fn median_of_odd_count() {
    let rs = vec![ok("a", 100, 90), ok("b", 100, 70), ok("c", 100, 80)];
    let s = calculate_batch_stats(&rs);
    assert_eq!(s.median_reduction_percent, pct(20));
    assert_eq!(s.average_reduction_percent, pct(20));
}

#[test]
fn median_of_even_count() {
    let rs = vec![ok("a", 100, 60), ok("b", 100, 90), ok("c", 100, 80), ok("d", 100, 70)];
    let s = calculate_batch_stats(&rs);
    assert_eq!(s.median_reduction_percent, pct(25));
    assert_eq!(s.average_reduction_percent, pct(25));
}

#[test]
fn median_and_mean_round_down() {
    assert_eq!(median_value(&vec![-3, 0]), -2);
    assert_eq!(median_value(&vec![5, 1, 4]), 4);
    assert_eq!(mean_value(&vec![-1, -2]), -2);
    assert_eq!(mean_value(&vec![1, 2]), 1);
    assert_eq!(mean_value(&vec![]), 0);
    assert_eq!(median_value(&vec![]), 0);
}

#[test]
fn stats_skip_failed_items() {
    let e = ProcessError::ReadError("bad".to_string());
    let rs = vec![
        ok("a", 1000, 500),
        ProcessingResult::failed("b".to_string(), "out/b".to_string(), &e),
        ok("c", 3000, 2000),
    ];
    let s = calculate_batch_stats(&rs);
    assert_eq!(s.total_files, 3);
    assert_eq!(s.processed_files, 3);
    assert_eq!(s.successful_files, 2);
    assert_eq!(s.failed_files, 1);
    assert_eq!(s.total_original_size, 4000);
    assert_eq!(s.total_output_size, 2500);
    assert_eq!(s.overall_reduction_percent, 37_500_000);
    assert_eq!(s.average_reduction_percent, 41_666_666);
    assert_eq!(s.median_reduction_percent, 41_666_666);
}

#[test]
fn stats_of_no_results() {
    let s = calculate_batch_stats(&vec![]);
    assert_eq!(s.total_files, 0);
    assert_eq!(s.successful_files, 0);
    assert_eq!(s.failed_files, 0);
    assert_eq!(s.overall_reduction_percent, 0);
    assert_eq!(s.average_reduction_percent, 0);
    assert_eq!(s.median_reduction_percent, 0);
}

#[test]
fn thread_counts() {
    assert_eq!(calculate_optimal_threads(0), 2);
    assert_eq!(calculate_optimal_threads(1), 2);
    assert_eq!(calculate_optimal_threads(4), 2);
    assert_eq!(calculate_optimal_threads(5), 3);
    assert_eq!(calculate_optimal_threads(12), 6);
    assert_eq!(calculate_optimal_threads(16), 8);
    assert_eq!(calculate_optimal_threads(64), 8);
}

#[test]
fn output_names() {
    assert_eq!(output_file_name(Some("photo"), 3, OutputFormat::WebP), "photo.webp");
    assert_eq!(output_file_name(Some("a.b"), 0, OutputFormat::Jpeg), "a.b.jpg");
    assert_eq!(output_file_name(None, 0, OutputFormat::Png), "image_0.png");
    assert_eq!(output_file_name(None, 1207, OutputFormat::Tiff), "image_1207.tiff");
}

#[test]
fn settle_keeps_success_and_converts_errors() {
    let r = settle("a".to_string(), "out/a".to_string(), Ok(ok("a", 10, 5)));
    assert!(r.success);
    assert_eq!(r.original_size, 10);
    let e = ProcessError::WriteError("denied".to_string());
    let r = settle("b".to_string(), "out/b".to_string(), Err(e));
    assert!(!r.success);
    assert_eq!(r.original_path, "b");
    assert_eq!(r.output_path, "out/b");
    assert_eq!(r.error.as_deref(), Some("Failed to write image: denied"));
}

#[test]
fn progress_counts_up_to_total() {
    let mut p = BatchProgress::new(4);
    let mut seen = Vec::new();
    for i in 0..4u64 {
        let name = format!("f{}", i);
        let u = p.record(name.clone(), format!("out/{}", name), Ok(ok(&name, 100, 50)));
        assert_eq!(u.total, 4);
        assert_eq!(u.current_file, name);
        seen.push((u.current, u.percent));
    }
    assert_eq!(seen, vec![(1, pct(25)), (2, pct(50)), (3, pct(75)), (4, FULL_PERCENT)]);
    assert!(p.is_complete());
    assert_eq!(p.results().len(), 4);
}

#[test]
fn progress_of_three_rounds_down() {
    let mut p = BatchProgress::new(3);
    let u = p.record("a".to_string(), "out/a".to_string(), Ok(ok("a", 1, 1)));
    assert_eq!(u.percent, 33_333_333);
    assert!(!p.is_complete());
}

#[test]
fn batch_with_one_corrupt_file() {
    let mut p = BatchProgress::new(3);
    let outcomes = vec![
        Ok(ok("one.png", 1000, 400)),
        Err(ProcessError::ReadError("invalid PNG signature".to_string())),
        Ok(ok("three.png", 2000, 1500)),
    ];
    let names = ["one.png", "two.png", "three.png"];
    let mut currents = Vec::new();
    for (name, outcome) in names.iter().zip(outcomes) {
        let u = p.record(name.to_string(), format!("out/{}", name), outcome);
        currents.push(u.current);
    }
    assert_eq!(currents, vec![1, 2, 3]);
    assert!(p.is_complete());
    let results = p.results();
    assert_eq!(results.len(), 3);
    assert!(results[0].success);
    assert_eq!(results[0].reduction_percent(), pct(60));
    assert!(!results[1].success);
    assert_eq!(results[1].original_path, "two.png");
    assert!(!results[1].error.as_deref().unwrap_or("").is_empty());
    assert!(results[2].success);
    assert_eq!(results[2].reduction_percent(), pct(25));
    let s = p.stats();
    assert_eq!(s.total_files, 3);
    assert_eq!(s.successful_files, 2);
    assert_eq!(s.failed_files, 1);
    assert_eq!(s.total_original_size, 3000);
    assert_eq!(s.total_output_size, 1900);
}
