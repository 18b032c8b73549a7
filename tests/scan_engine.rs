use repomuse::aggregate::{aggregate_results, totals_fit, Aggregate};
use repomuse::cache::{cached_digest, cached_digest_at, make_cache_entry, AnalysisCacheEntry};
use repomuse::cancel::CancelRegistry;
use repomuse::digest::{FileDescriptor, FileProcessResult, RepoAnalysis};
use repomuse::lang::{extension, file_name, get_language_from_extension, parent_dir, should_analyze_file, should_count_file};
use repomuse::process::{line_count, process_file, process_files, sampling_plan, LazyLoadConfig};
use repomuse::progress::{emitter_should_stop, estimate_remaining, ProgressTracker};
use repomuse::scan::{build_digest, collect_candidates, lazy_scan_progress, LazyCollector};
use repomuse::walkrules::{override_globs_list, RuleCache};
use repomuse::session::{consults_cache, discovers_lazily, scan_mode, ScanMode, ScanSession};

fn result(path: &str, size: u64, language: &str, analyzed: bool, lines: usize) -> FileProcessResult {
    let d = FileDescriptor { path: path.to_string(), size, language: language.to_string(), parent: parent_dir(path) };
    let prefix = if analyzed { Some("x\n".repeat(lines)) } else { None };
    let mut r = process_file(&d, analyzed, &prefix, 5000);
    r.lines = if analyzed { lines } else { 0 };
    r
}

/// Runs the pure part of a full scan over files given as (path, size, content).
fn scan(files: &[(&str, u64, &str)], is_favorite: bool) -> RepoAnalysis {
    let descs: Vec<FileDescriptor> = files
        .iter()
        .filter(|f| should_analyze_file(f.0))
        .map(|f| FileDescriptor::new(f.0, f.1))
        .collect();
    let contents: Vec<Option<String>> = files
        .iter()
        .filter(|f| should_analyze_file(f.0))
        .map(|f| Some(f.2.to_string()))
        .collect();
    let cfg = LazyLoadConfig::full(is_favorite);
    let limit = descs.len().max(cfg.sample_content_limit);
    let results = process_files(&descs, is_favorite, limit, &contents);
    assert!(totals_fit(&results));
    let agg = aggregate_results(results);
    build_digest(agg, "2024-01-01T00:00:00+00:00".to_string(), false, None)
}

#[test]
fn language_from_extension() {
    assert_eq!(get_language_from_extension("/p/src/main.rs"), "Rust");
    assert_eq!(get_language_from_extension("/p/app.tsx"), "TypeScript");
    assert_eq!(get_language_from_extension("/p/app.jsx"), "JavaScript");
    assert_eq!(get_language_from_extension("/p/a.cc"), "C++");
    assert_eq!(get_language_from_extension("/p/config.yaml"), "YAML");
    assert_eq!(get_language_from_extension("/p/.gitignore"), "Unknown");
    assert_eq!(get_language_from_extension("/p/Makefile"), "Unknown");
    assert_eq!(get_language_from_extension("/p.d/README"), "Unknown");
}

#[test]
fn path_parts() {
    assert_eq!(file_name("/p/src/main.rs"), "main.rs");
    assert_eq!(parent_dir("/p/src/main.rs"), Some("/p/src".to_string()));
    assert_eq!(parent_dir("/main.rs"), Some("/".to_string()));
    assert_eq!(parent_dir("main.rs"), Some(String::new()));
    assert_eq!(parent_dir("/"), None);
    assert_eq!(extension("/p/archive.tar.gz"), Some("gz".to_string()));
    assert_eq!(extension("/p/.bashrc"), None);
    assert_eq!(extension("/p/name."), Some(String::new()));
}

#[test]
fn filter_denies_dirs_and_extensions() {
    assert!(!should_analyze_file("/p/node_modules/x/index.js"));
    assert!(!should_analyze_file("/p/target/debug/main.rs"));
    assert!(!should_analyze_file("C:\\p\\dist\\app.js"));
    assert!(!should_analyze_file("/p/assets/logo.png"));
    assert!(!should_analyze_file("/p/fonts/a.woff2"));
    assert!(should_analyze_file("/p/src/main.rs"));
    assert!(should_analyze_file("/p/targets/main.rs"));
    assert!(should_analyze_file("/p/LICENSE"));
    assert!(should_analyze_file("/p/lib/native.so"));
    assert!(!should_count_file("/p/lib/native.so"));
    assert!(!should_count_file("/p/bin/tool.exe"));
    assert!(should_count_file("/p/src/lib.rs"));
}

#[test]
fn scenario_empty_directory() {
    let d = scan(&[], false);
    assert!(d.files.is_empty());
    assert_eq!(d.metrics.total_files, 0);
    assert_eq!(d.metrics.total_lines, 0);
    assert_eq!(d.from_cache, Some(false));
    assert!(d.technologies.is_empty());
    assert!(d.size_metrics.largest_files.is_empty());
}

#[test]
fn scenario_image_and_rust_file() {
    let d = scan(&[("/proj/logo.png", 2048, ""), ("/proj/main.rs", 12, "fn main(){}\n")], false);
    assert_eq!(d.technologies, vec!["Rust".to_string()]);
    assert_eq!(d.metrics.total_files, 1);
    assert_eq!(d.metrics.analyzed_files, 1);
    assert_eq!(d.metrics.total_lines, 1);
    assert_eq!(d.files[0].content, "fn main(){}\n");
    assert_eq!(d.structure, vec![("/proj".to_string(), vec!["main.rs".to_string()])]);
}

#[test]
fn denied_files_never_reach_the_digest() {
    let d = scan(
        &[
            ("/p/node_modules/a/index.js", 10, "x"),
            ("/p/.git/config", 10, "x"),
            ("/p/img/photo.jpg", 10, "x"),
            ("/p/src/app.py", 10, "print(1)\n"),
        ],
        false,
    );
    assert_eq!(d.metrics.total_files, 1);
    assert_eq!(d.files.len(), 1);
    assert_eq!(d.files[0].path, "/p/src/app.py");
    for f in &d.size_metrics.largest_files {
        assert!(should_analyze_file(&f.path));
    }
}

#[test]
fn size_by_language_sums_to_analyzed_bytes() {
    let d = scan(
        &[("/p/a.rs", 100, "a\n"), ("/p/b.py", 50, "b\n"), ("/p/c.rs", 25, "c\n"), ("/p/d.md", 5, "# d\n")],
        false,
    );
    let sum: u64 = d.size_metrics.size_by_language.iter().map(|e| e.1).sum();
    assert_eq!(sum, d.size_metrics.analyzed_size_bytes);
    assert_eq!(sum, 180);
    assert_eq!(
        d.size_metrics.size_by_language,
        vec![("Rust".to_string(), 125), ("Python".to_string(), 50), ("Markdown".to_string(), 5)]
    );
    assert_eq!(d.technologies, vec!["Rust".to_string(), "Python".to_string(), "Markdown".to_string()]);
}

#[test]
fn unknown_language_bytes_are_not_listed() {
    let agg = aggregate_results(vec![
        result("/p/a.rs", 10, "Rust", true, 1),
        result("/p/LICENSE", 7, "Unknown", true, 1),
        result("/p/big.rs", 70, "Rust", false, 0),
    ]);
    assert_eq!(agg.size_metrics.size_by_language, vec![("Rust".to_string(), 10)]);
    assert_eq!(agg.size_metrics.analyzed_size_bytes, 17);
    assert_eq!(agg.size_metrics.total_size_bytes, 87);
    assert_eq!(agg.metrics.total_files, 3);
    assert_eq!(agg.metrics.analyzed_files, 2);
    assert_eq!(agg.metrics.total_lines, 2);
}

#[test]
fn largest_files_top_ten_descending() {
    let sizes: [u64; 12] = [5, 90, 17, 3, 61, 44, 8, 120, 33, 71, 2, 99];
    let results: Vec<FileProcessResult> =
        sizes.iter().enumerate().map(|(i, s)| result(&format!("/p/f{}.rs", i), *s, "Rust", true, 1)).collect();
    let agg: Aggregate = aggregate_results(results);
    let got: Vec<u64> = agg.size_metrics.largest_files.iter().map(|f| f.size_bytes).collect();
    assert_eq!(got, vec![120, 99, 90, 71, 61, 44, 33, 17, 8, 5]);
    assert_eq!(agg.size_metrics.largest_files[0].path, "/p/f7.rs");
    for w in got.windows(2) {
        assert!(w[0] > w[1]);
    }
}

#[test]
fn largest_files_ties_keep_discovery_order() {
    let results = vec![
        result("/p/a.rs", 10, "Rust", true, 1),
        result("/p/b.rs", 30, "Rust", true, 1),
        result("/p/c.rs", 10, "Rust", true, 1),
        result("/p/d.rs", 30, "Rust", true, 1),
    ];
    let agg = aggregate_results(results);
    let paths: Vec<&str> = agg.size_metrics.largest_files.iter().map(|f| f.path.as_str()).collect();
    assert_eq!(paths, vec!["/p/b.rs", "/p/d.rs", "/p/a.rs", "/p/c.rs"]);
}

#[test]
fn directory_listing_holds_sampled_files_only() {
    let agg = aggregate_results(vec![
        result("/p/src/a.rs", 1, "Rust", true, 1),
        result("/p/src/b.rs", 1, "Rust", false, 0),
        result("/p/docs/c.md", 1, "Markdown", true, 1),
        result("/p/src/d.rs", 1, "Rust", true, 1),
    ]);
    assert_eq!(
        agg.structure,
        vec![
            ("/p/src".to_string(), vec!["a.rs".to_string(), "d.rs".to_string()]),
            ("/p/docs".to_string(), vec!["c.md".to_string()]),
        ]
    );
}

#[test]
fn sampling_plan_respects_size_and_count() {
    let files: Vec<FileDescriptor> = [10u64, 200_000, 20, 30, 99_999, 100_000]
        .iter()
        .enumerate()
        .map(|(i, s)| FileDescriptor::new(&format!("/p/{}.rs", i), *s))
        .collect();
    assert_eq!(sampling_plan(&files, false, 3), vec![true, false, true, true, false, false]);
    assert_eq!(sampling_plan(&files, false, 10), vec![true, false, true, true, true, false]);
    assert_eq!(sampling_plan(&files, true, 10), vec![true, false, true, true, true, true]);
}

#[test]
fn long_prefix_is_marked_truncated() {
    let d = FileDescriptor::new("/p/big.txt", 50_000);
    let r = process_file(&d, true, &Some("a".repeat(5000)), 5000);
    let content = r.file_info.unwrap().content;
    assert!(content.ends_with("...(truncated)"));
    assert_eq!(content.len(), 5000 + "...(truncated)".len());
    let short = process_file(&d, true, &Some("abc".to_string()), 5000);
    assert_eq!(short.file_info.unwrap().content, "abc");
}

#[test]
fn unreadable_file_is_not_sampled() {
    let d = FileDescriptor::new("/p/locked.rs", 10);
    let r = process_file(&d, true, &None, 5000);
    assert!(r.file_info.is_none());
    assert!(!r.is_analyzed);
    assert_eq!(r.size, 10);
}

#[test]
fn line_counts() {
    assert_eq!(line_count(""), 0);
    assert_eq!(line_count("a"), 1);
    assert_eq!(line_count("a\n"), 1);
    assert_eq!(line_count("a\nb"), 2);
    assert_eq!(line_count("\n\n"), 2);
    assert_eq!(line_count("a\r\nb\r\n"), 2);
}

#[test]
fn scenario_lazy_favorite_keeps_limit() {
    let cfg = LazyLoadConfig::lazy(true);
    assert_eq!(cfg.initial_scan_limit, 150);
    let cands: Vec<(FileDescriptor, bool)> =
        (0..300).map(|i| (FileDescriptor::new(&format!("/fav/f{}.rs", i), 10), false)).collect();
    let kept = collect_candidates(&cands, cfg.initial_scan_limit);
    assert_eq!(kept.len(), 150);
    let p = lazy_scan_progress(kept.len(), cfg.initial_scan_limit, 300, false);
    assert!(!p.is_complete);
    assert_eq!(p.estimated_total_files, Some(300));
    assert_eq!(p.files_scanned, 150);
}

#[test]
fn lazy_scan_puts_changed_files_first() {
    let cands = vec![
        (FileDescriptor::new("/p/u1.rs", 1), true),
        (FileDescriptor::new("/p/c1.rs", 1), false),
        (FileDescriptor::new("/p/u2.rs", 1), true),
        (FileDescriptor::new("/p/c2.rs", 1), false),
        (FileDescriptor::new("/p/c3.rs", 1), false),
    ];
    let kept = collect_candidates(&cands, 4);
    let paths: Vec<&str> = kept.iter().map(|d| d.path.as_str()).collect();
    assert_eq!(paths, vec!["/p/c1.rs", "/p/c2.rs", "/p/c3.rs", "/p/u1.rs"]);
    let all = collect_candidates(&cands, 10);
    assert_eq!(all.len(), 5);
    let p = lazy_scan_progress(5, 10, 5, false);
    assert!(p.is_complete);
}

#[test]
fn collector_refuses_past_limit() {
    let mut c = LazyCollector::new(1);
    assert!(c.offer(FileDescriptor::new("/p/a.rs", 1), false));
    assert!(c.is_full());
    assert!(c.offer(FileDescriptor::new("/p/b.rs", 1), true));
    assert!(!c.offer(FileDescriptor::new("/p/c.rs", 1), false));
    assert_eq!(c.collected_count(), 1);
    let kept = c.finish();
    assert_eq!(kept.len(), 1);
    assert_eq!(kept[0].path, "/p/a.rs");
}

fn sample_digest() -> RepoAnalysis {
    scan(&[("/p/a.rs", 10, "a\nb\n"), ("/p/b.py", 5, "c\n")], true)
}

#[test]
fn changed_file_found_late_displaces_unchanged() {
    let cands = vec![(FileDescriptor::new("/p/old.rs", 1), true), (FileDescriptor::new("/p/new.rs", 1), false)];
    let kept = collect_candidates(&cands, 1);
    assert_eq!(kept.len(), 1);
    assert_eq!(kept[0].path, "/p/new.rs");
    let mut s = ScanSession::new("/p".to_string(), false, true);
    s.collector = LazyCollector::new(1);
    s.config.initial_scan_limit = 1;
    s.on_file("/p/old.rs", Some(1), true);
    s.on_file("/p/new.rs", Some(1), false);
    let files = s.begin_processing();
    assert_eq!(files.len(), 1);
    assert_eq!(files[0].path, "/p/new.rs");
}

#[test]
fn scenario_second_lazy_scan_of_favorite_hits_cache() {
    let d = sample_digest();
    let t0 = 1_700_000_000u64;
    let e = make_cache_entry("/fav".to_string(), d.clone(), 1_699_999_000, t0);
    let hit = cached_digest(e.clone(), 1_699_999_000, t0 + 5400, true, false, false, "now".to_string());
    let a = hit.expect("served from cache");
    assert_eq!(a.from_cache, Some(true));
    assert_eq!(a.metrics, d.metrics);
    assert_eq!(a.generated_at, Some("2023-11-14T22:13:20+00:00".to_string()));
    let miss = cached_digest(e, 1_699_999_000, t0 + 5400, false, false, false, "now".to_string());
    assert!(miss.is_none());
}

#[test]
fn rescan_within_ttl_has_identical_metrics() {
    let d = sample_digest();
    let e = make_cache_entry("/p".to_string(), d.clone(), 100, 1000);
    let a = cached_digest_at(e.clone(), 100, 1000 + 3599, false, false, false, "s".to_string()).unwrap();
    assert_eq!(a.metrics, d.metrics);
    assert_eq!(a.technologies, d.technologies);
    assert_eq!(a.size_metrics.total_size_bytes, d.size_metrics.total_size_bytes);
    assert_eq!(a.from_cache, Some(true));
    assert_eq!(a.generated_at, Some("s".to_string()));
    assert!(cached_digest_at(e.clone(), 100, 1000 + 3600, false, false, false, "s".to_string()).is_none());
    assert!(cached_digest_at(e.clone(), 101, 1001, false, false, false, "s".to_string()).is_none());
    assert!(cached_digest_at(e.clone(), 100, 1001, false, true, false, "s".to_string()).is_none());
    assert!(cached_digest_at(e.clone(), 100, 1001, false, false, true, "s".to_string()).is_none());
    assert!(cached_digest_at(e, 100, 999, false, false, false, "s".to_string()).is_none());
}

#[test]
fn cache_stamp_renders_epoch() {
    let d = sample_digest();
    let e: AnalysisCacheEntry = make_cache_entry("/p".to_string(), d, 0, 0);
    let a = cached_digest(e, 0, 10, false, false, false, "fallback".to_string()).unwrap();
    assert_eq!(a.generated_at, Some("1970-01-01T00:00:00+00:00".to_string()));
}

#[test]
fn cancellation_registry_lifecycle() {
    let mut reg = CancelRegistry::new();
    reg.start_scan("/p");
    assert!(!reg.is_cancelled("/p"));
    assert_eq!(reg.request_cancel("/p"), Ok(()));
    assert!(reg.is_cancelled("/p"));
    assert_eq!(reg.end_scan("/p"), Some(true));
    assert_eq!(reg.request_cancel("/p"), Err("No running analysis for this path".to_string()));
    assert_eq!(reg.request_cancel("/other"), Err("No running analysis for this path".to_string()));
    reg.start_scan("/p");
    assert!(!reg.is_cancelled("/p"));
}

#[test]
fn cancelled_lazy_scan_is_incomplete() {
    let p = lazy_scan_progress(3, 100, 3, true);
    assert!(!p.is_complete);
    assert_eq!(p.estimated_total_files, Some(3));
}

#[test]
fn progress_snapshot() {
    let mut t = ProgressTracker::new();
    assert_eq!(t.phase, "discovery");
    for _ in 0..10 {
        t.increment_discovered();
    }
    t.increment_skipped_filtered();
    t.increment_dirs_seen();
    t.set_phase("processing");
    t.set_total_files(10);
    t.set_total_bytes(400);
    assert_eq!(t.increment_processed(100), 0);
    assert_eq!(t.increment_processed(100), 1);
    t.set_current_file(Some("/p/a.rs".to_string()));
    let p = t.get_progress("/p", true, 1000);
    assert_eq!(p.files_processed, 2);
    assert_eq!(p.total_files, 10);
    assert_eq!(p.percentage_of, 10);
    assert_eq!(p.estimated_remaining_ms, Some(4000));
    assert_eq!(p.bytes_processed, 200);
    assert_eq!(p.total_bytes, Some(400));
    assert_eq!(p.skipped_filtered, Some(1));
    assert_eq!(p.dirs_seen, Some(1));
    assert_eq!(p.phase, "processing");
    assert!(!emitter_should_stop(&p));
    t.mark_complete();
    assert!(emitter_should_stop(&t.get_progress("/p", true, 1000)));
}

#[test]
fn remaining_time_estimates() {
    assert_eq!(estimate_remaining(1000, 0, 10), None);
    assert_eq!(estimate_remaining(1000, 10, 10), None);
    assert_eq!(estimate_remaining(1000, 3, 10), Some(2333));
    assert_eq!(estimate_remaining(u64::MAX, 1, 3), Some(u64::MAX));
    let mut t = ProgressTracker::new();
    t.increment_discovered();
    let p = t.get_progress("/p", false, 301_000);
    assert_eq!(p.percentage_of, 1);
    assert!(emitter_should_stop(&p));
}

#[test]
fn lazy_and_full_budgets() {
    let d = LazyLoadConfig::default();
    assert_eq!(d.initial_scan_limit, 100);
    assert_eq!(d.sample_content_limit, 20);
    assert_eq!(LazyLoadConfig::lazy(false).max_file_size, 100_000);
    assert_eq!(LazyLoadConfig::full(true).sample_content_limit, 50);
    assert_eq!(LazyLoadConfig::full(true).max_file_size, 200_000);
    assert_eq!(LazyLoadConfig::full(true).initial_scan_limit, usize::MAX);
}

#[test]
fn scan_modes_follow_flags() {
    assert_eq!(scan_mode(false, false, false), ScanMode::CachedOrFull);
    assert_eq!(scan_mode(false, true, false), ScanMode::CachedOrLazy);
    assert_eq!(scan_mode(true, true, false), ScanMode::Lazy);
    assert_eq!(scan_mode(true, false, true), ScanMode::Full);
    assert_eq!(scan_mode(false, true, true), ScanMode::Full);
    assert!(consults_cache(ScanMode::CachedOrLazy));
    assert!(!consults_cache(ScanMode::Lazy));
    assert!(discovers_lazily(ScanMode::Lazy));
    assert!(!discovers_lazily(ScanMode::CachedOrFull));
}

#[test]
fn session_full_scan_end_to_end() {
    let mut s = ScanSession::new("/proj".to_string(), false, false);
    s.on_directory();
    s.on_file("/proj/logo.png", Some(2048), false);
    s.on_file("/proj/main.rs", Some(12), false);
    s.on_file("/proj/locked.rs", None, false);
    assert_eq!(s.tracker.files_discovered, 3);
    assert_eq!(s.tracker.skipped_filtered, 1);
    assert_eq!(s.eligible_seen, 2);
    let files = s.begin_processing();
    assert_eq!(files.len(), 1);
    assert_eq!(s.tracker.phase, "processing");
    let limit = s.sample_limit(files.len());
    assert_eq!(limit, 20);
    let d = s.finish(&files, &vec![Some("fn main(){}\n".to_string())], "t".to_string()).unwrap();
    assert_eq!(d.technologies, vec!["Rust".to_string()]);
    assert_eq!(d.metrics.total_files, 1);
    assert_eq!(d.metrics.analyzed_files, 1);
    assert_eq!(d.metrics.total_lines, 1);
    assert_eq!(d.is_lazy_scan, Some(false));
    assert!(d.scan_progress.is_none());
    assert_eq!(s.tracker.phase, "complete");
    assert!(s.tracker.is_complete);
}

#[test]
fn session_lazy_scan_counts_whole_tree() {
    let mut s = ScanSession::new("/fav".to_string(), true, true);
    for i in 0..300 {
        s.on_file(&format!("/fav/f{}.rs", i), Some(10), i % 2 == 0);
    }
    let files = s.begin_processing();
    assert_eq!(files.len(), 150);
    assert!(files[0].path.ends_with("f1.rs"));
    let prefixes: Vec<Option<String>> = files.iter().map(|_| Some("x".to_string())).collect();
    let d = s.finish(&files, &prefixes, "t".to_string()).unwrap();
    let p = d.scan_progress.unwrap();
    assert_eq!(p.files_scanned, 150);
    assert_eq!(p.estimated_total_files, Some(300));
    assert!(!p.is_complete);
    assert_eq!(d.metrics.analyzed_files, 30);
}

#[test]
fn session_cancelled_scan_still_returns_digest() {
    let mut s = ScanSession::new("/p".to_string(), false, true);
    s.on_file("/p/a.rs", Some(3), false);
    s.cancel();
    let files = s.begin_processing();
    let d = s.finish(&files, &vec![None], "t".to_string()).unwrap();
    assert!(!d.scan_progress.unwrap().is_complete);
    assert_eq!(s.tracker.phase, "cancelled");
    assert_eq!(d.metrics.total_files, 1);
}

#[test]
fn walker_rules_and_cache() {
    let globs = override_globs_list();
    assert_eq!(globs.len(), 21 + 28);
    assert_eq!(globs[0], "!**/node_modules/**");
    assert_eq!(globs[20], "!**/tmp/**");
    assert_eq!(globs[21], "!**/*.png");
    assert_eq!(globs[48], "!**/*.wasm");
    let mut cache: RuleCache<u32> = RuleCache::new();
    for i in 0..101u32 {
        cache.insert(format!("/root{}", i), i);
    }
    assert_eq!(cache.get("/root7"), Some(&7));
    cache.insert("/again".to_string(), 1);
    assert_eq!(cache.get("/root7"), None);
    assert_eq!(cache.get("/again"), Some(&1));
    assert_eq!(cache.rules.len(), 1);
}

#[test]
fn unsampled_files_add_no_language_bytes() {
    let agg = aggregate_results(vec![result("/p/big.rs", 10, "Rust", false, 0), result("/p/a.py", 4, "Python", true, 1)]);
    assert_eq!(agg.size_metrics.size_by_language, vec![("Rust".to_string(), 0), ("Python".to_string(), 4)]);
    let sum: u64 = agg.size_metrics.size_by_language.iter().map(|e| e.1).sum();
    assert_eq!(sum, agg.size_metrics.analyzed_size_bytes);
    assert_eq!(agg.technologies, vec!["Rust".to_string(), "Python".to_string()]);
}

#[test]
fn session_steps_keep_state() {
    let mut s = ScanSession::new("/p".to_string(), false, false);
    s.on_file("/p/a.rs", Some(3), false);
    s.on_directory();
    s.cancel();
    assert_eq!(s.files.len(), 1);
    assert!(s.cancelled);
    assert!(!s.lazy);
    assert_eq!(s.eligible_seen, 1);
    assert_eq!(s.tracker.dirs_seen, 1);
}
