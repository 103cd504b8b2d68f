use ifs_parser::utils::file_utils::{get_extension, get_relative_path, get_stem};
use ifs_parser::utils::logging::{create_module_logger, AnalysisLog, ProgressLogger};
use ifs_parser::utils::performance::{PerformanceCounter, PerformanceMonitor};
use std::time::Duration;

#[test]
fn test_analysis_log() {
    let log_entry = AnalysisLog::new("parsing", "test.pls")
        .with_duration(Duration::from_millis(100).as_nanos())
        .with_symbols(5)
        .with_warnings(1);

    assert_eq!(log_entry.operation, "parsing");
    assert_eq!(log_entry.file, "test.pls");
    assert_eq!(log_entry.symbols_found, 5);
    assert_eq!(log_entry.warnings, 1);
    assert_eq!(log_entry.errors, 0);
}

#[test]
fn analysis_log_keeps_what_is_set() {
    let log_entry = AnalysisLog::new("indexing", "a.plsql").with_errors(3).with_duration(7);
    assert_eq!(log_entry.errors, 3);
    assert_eq!(log_entry.duration, 7);
    assert_eq!(log_entry.warnings, 0);
    assert_eq!(log_entry.symbols_found, 0);
}

#[test]
fn test_progress_logger() {
    let mut logger = ProgressLogger::new("test_operation", 100);

    assert_eq!(logger.operation, "test_operation");
    assert_eq!(logger.total, 100);
    assert_eq!(logger.current, 0);

    logger.update(50);
    assert_eq!(logger.current, 50);

    logger.increment();
    assert_eq!(logger.current, 51);
}

#[test]
fn progress_stops_at_the_largest_count() {
    let mut logger = ProgressLogger::new("op", 2);
    assert!(!logger.is_complete());
    logger.update(2);
    assert!(logger.is_complete());
    logger.update(usize::MAX);
    logger.increment();
    assert_eq!(logger.current, usize::MAX);
}

#[test]
fn test_module_logger() {
    let logger = create_module_logger("test_module");
    assert_eq!(logger.module, "test_module");
}

#[test]
fn test_performance_counter() {
    let mut counter = PerformanceCounter::new("test");

    counter.record(Duration::from_millis(100).as_nanos());
    counter.record(Duration::from_millis(200).as_nanos());
    counter.record(Duration::from_millis(50).as_nanos());

    assert_eq!(counter.count(), 3);
    assert_eq!(counter.min(), Duration::from_millis(50).as_nanos());
    assert_eq!(counter.max(), Duration::from_millis(200).as_nanos());
    assert!(counter.average() > Duration::from_millis(100).as_nanos());
}

#[test]
fn counter_arithmetic() {
    let mut counter = PerformanceCounter::new("c");
    assert_eq!(counter.name(), "c");
    assert_eq!((counter.count(), counter.total(), counter.min(), counter.max(), counter.average()), (0, 0, 0, 0, 0));
    counter.record(10);
    counter.record(5);
    counter.record(6);
    assert_eq!((counter.count(), counter.total(), counter.min(), counter.max(), counter.average()), (3, 21, 5, 10, 7));
    counter.record(1);
    assert_eq!(counter.average(), 5);
    counter.record(u128::MAX);
    assert_eq!(counter.total(), u128::MAX);
    assert_eq!(counter.max(), u128::MAX);
    counter.reset();
    assert_eq!((counter.count(), counter.total(), counter.min(), counter.max()), (0, 0, 0, 0));
    assert_eq!(counter.name(), "c");
}

#[test]
fn test_performance_monitor() {
    let mut monitor = PerformanceMonitor::new();

    monitor.record("test1", Duration::from_millis(100).as_nanos());
    monitor.record("test2", Duration::from_millis(200).as_nanos());
    monitor.record("test1", Duration::from_millis(150).as_nanos());

    let counter1 = monitor.get_counter("test1").unwrap();
    assert_eq!(counter1.count(), 2);

    let counter2 = monitor.get_counter("test2").unwrap();
    assert_eq!(counter2.count(), 1);
}

#[test]
fn monitor_resets_by_name_and_all() {
    let mut monitor = PerformanceMonitor::new();
    assert!(monitor.get_counter("a").is_none());
    monitor.record("a", 3);
    monitor.record("b", 4);
    monitor.record("a", 5);
    let names: Vec<String> = monitor.get_counters().iter().map(|c| c.name().to_string()).collect();
    assert_eq!(names, vec!["a", "b"]);
    assert_eq!(monitor.get_counter("a").unwrap().total(), 8);
    monitor.reset("a");
    assert_eq!(monitor.get_counter("a").unwrap().count(), 0);
    assert_eq!(monitor.get_counter("b").unwrap().count(), 1);
    monitor.reset("missing");
    assert_eq!(monitor.get_counters().len(), 2);
    monitor.reset_all();
    assert_eq!(monitor.get_counter("b").unwrap().count(), 0);
    assert_eq!(monitor.get_counters().len(), 2);
}

#[test]
fn extensions_and_stems() {
    assert_eq!(get_extension("test.txt"), Some("txt".to_string()));
    assert_eq!(get_stem("test.txt"), Some("test".to_string()));
    assert_eq!(get_extension("/tmp/dir.d/archive.tar.gz"), Some("gz".to_string()));
    assert_eq!(get_stem("/tmp/dir.d/archive.tar.gz"), Some("archive.tar".to_string()));
    assert_eq!(get_extension("/tmp/dir.d/file"), None);
    assert_eq!(get_stem("/tmp/dir.d/file"), Some("file".to_string()));
    assert_eq!(get_extension(".hidden"), None);
    assert_eq!(get_stem(".hidden"), Some(".hidden".to_string()));
    assert_eq!(get_extension("name."), Some("".to_string()));
    assert_eq!(get_stem("name."), Some("name".to_string()));
    assert_eq!(get_extension(".."), None);
    assert_eq!(get_stem(".."), None);
    assert_eq!(get_extension(""), None);
    assert_eq!(get_stem(""), None);
    assert_eq!(get_stem("dir/"), Some("dir".to_string()));
    assert_eq!(get_extension("a.entity/"), Some("entity".to_string()));
    assert_eq!(get_extension("é.ü"), Some("ü".to_string()));
}

#[test]
fn relative_paths() {
    assert_eq!(get_relative_path("/foo/bar", "/foo/bar/baz"), Some("baz".to_string()));
    assert_eq!(get_relative_path("/foo/bar/baz", "/foo/bar"), Some("..".to_string()));
    assert_eq!(get_relative_path("/foo/bar/baz", "/foo/bar/quux"), Some("../quux".to_string()));
    assert_eq!(get_relative_path("bar", "foo"), Some("../foo".to_string()));
    assert_eq!(get_relative_path("/abs", "rel"), None);
}

#[test]
fn analysis_record_is_written_at_its_level() {
    let plain = AnalysisLog::new("parse", "a.plsql").with_symbols(12);
    assert_eq!(plain.level(), ifs_parser::utils::logging::LogLevel::Info);
    assert_eq!(plain.message("5ms"), "parse completed for a.plsql in 5ms - 12 symbols processed");
    let warned = AnalysisLog::new("parse", "a.plsql").with_symbols(3).with_warnings(2);
    assert_eq!(warned.level(), ifs_parser::utils::logging::LogLevel::Warn);
    assert_eq!(warned.message("1.50s"), "parse completed for a.plsql in 1.50s - 3 symbols, 2 warnings");
    let failed = AnalysisLog::new("index", "b.entity").with_errors(1).with_warnings(40);
    assert_eq!(failed.level(), ifs_parser::utils::logging::LogLevel::Error);
    assert_eq!(
        failed.message("1m 30.00s"),
        "index completed for b.entity in 1m 30.00s - 0 symbols, 1 errors, 40 warnings"
    );
}

#[test]
fn memory_figures_are_read_from_a_status_text() {
    use_memory(
        "Name:\tcat\nVmSize:\t    5772 kB\nVmRSS:\t     980 kB\nRssFile:\t     900 kB\nThreads:\t1\n",
        980 * 1024,
        5772 * 1024,
        900 * 1024,
    );
    use_memory("", 0, 0, 0);
    use_memory("VmRSS: 12", 12 * 1024, 0, 0);
    use_memory("VmRSS: 12\nVmRSS: 13 kB\n", 13 * 1024, 0, 0);
    use_memory("VmRSS: 12\nVmRSS:\n", 12 * 1024, 0, 0);
    use_memory("VmRSS: 12\nVmRSS: many kB\n", 0, 0, 0);
    use_memory("VmRSS:12 kB\n", 0, 0, 0);
    use_memory("VmRSS: +7 kB\r\nVmSize: -7 kB\r\n", 7 * 1024, 0, 0);
    use_memory("  VmRSS: 5\nXVmRSS: 6\n", 0, 0, 0);
    use_memory("VmRSS: 18446744073709551615\n", u64::MAX, 0, 0);
    use_memory("VmRSS: 18446744073709551616\n", 0, 0, 0);
    use_memory("VmSize: 18014398509481983\n", 0, 18014398509481983 * 1024, 0);
    use_memory("VmSize: 18014398509481984\n", 0, u64::MAX, 0);
    use_memory("RssFile: +\nRssFile: 0012\n", 0, 0, 12 * 1024);
}

fn use_memory(status: &str, rss: u64, vms: u64, shared: u64) {
    assert_eq!(
        ifs_parser::utils::memory::get_memory_usage(status),
        ifs_parser::utils::memory::MemoryUsage { rss, vms, shared },
        "{:?}",
        status
    );
}

#[test]
fn files_are_chosen_by_extension() {
    use_extension("a/b/c.plsql", true);
    use_extension("c.entity", true);
    use_extension("c.PLSQL", false);
    use_extension("c.views", false);
    use_extension("plsql", false);
    use_extension(".plsql", false);
    use_extension("a.plsql/b", false);
    use_extension("a.b.plsql", true);
}

fn use_extension(path: &str, expected: bool) {
    let extensions = vec![".plsql".to_string(), ".entity".to_string()];
    assert_eq!(ifs_parser::utils::file_utils::has_extension(path, &extensions), expected, "{}", path);
    assert!(!ifs_parser::utils::file_utils::has_extension(path, &Vec::new()));
}

#[test]
fn extension_and_stem_agree_with_the_path_rules_of_the_platform() {
    let paths = [
        "", "/", "//", ".", "./", "./.", "..", "../", "a/..", "a/../", "a", "a/", "a//", "a/.",
        "a/./", "a/.//.", "a.b", "a.b/", "a.b/.", "a.b//./", "a.entity/", "x/a.entity/.", ".a",
        ".a/", ".a.b", "a.", "a./", "a..", "a..b", "/a.b", "/.", "/..", "x/.hidden", "x/.hidden/",
        "x.y/z", "x.y/z/", "x.y/.z", "x/./y.z", "./a.b", "...", "a/...", "a.b.c/",
    ];
    for path in paths {
        let std_path = std::path::Path::new(path);
        let extension = std_path.extension().map(|e| e.to_str().unwrap().to_string());
        let stem = std_path.file_stem().map(|e| e.to_str().unwrap().to_string());
        assert_eq!(get_extension(path), extension, "extension of {:?}", path);
        assert_eq!(get_stem(path), stem, "stem of {:?}", path);
    }
}

#[test]
fn counters_come_out_by_total_and_keep_their_bounds() {
    let mut monitor = PerformanceMonitor::new();
    monitor.record("small", 5);
    monitor.record("large", 70);
    monitor.record("even", 70);
    monitor.record("small", 9);
    monitor.record("middle", 30);
    let names: Vec<String> = monitor.by_total().iter().map(|c| c.name().to_string()).collect();
    assert_eq!(names, vec!["large", "even", "middle", "small"]);
    assert!(PerformanceMonitor::new().by_total().is_empty());

    let mut counter = PerformanceCounter::new("c");
    counter.record(40);
    assert_eq!((counter.min(), counter.max(), counter.total(), counter.average()), (40, 40, 40, 40));
    counter.record(10);
    counter.record(25);
    assert_eq!((counter.min(), counter.max(), counter.total(), counter.average()), (10, 40, 75, 25));
    assert!(counter.min() <= counter.average() && counter.average() <= counter.max());
}
