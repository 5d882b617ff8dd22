use embedded_runner::collect::{
    has_tests, index_lists, is_json_extension, lines_contain, merge_coverage, text_lines,
};
use embedded_runner::coverage::{CoverageSchema, TestRun};
use embedded_runner::decode::all_indices_located;
use embedded_runner::frame::{
    create_json_frame, create_module_path, frame_from_parts, location_info, location_info_with,
    to_json_level, LocationInfo, Severity, SourceLocation,
};
use embedded_runner::text::format_u64;

#[test]
fn module_path_pieces() {
    let m = create_module_path(Some("krate::a::b::func")).unwrap();
    assert_eq!(m.crate_name, "krate");
    assert_eq!(m.modules, vec!["a".to_string(), "b".to_string()]);
    assert_eq!(m.function, "func");
    let m = create_module_path(Some("krate::func")).unwrap();
    assert!(m.modules.is_empty());
    assert!(create_module_path(Some("lonely")).is_none());
    assert!(create_module_path(None).is_none());
}

#[test]
fn levels_map_one_to_one() {
    assert_eq!(to_json_level(defmt_parser::Level::Trace), Severity::Trace);
    assert_eq!(to_json_level(defmt_parser::Level::Debug), Severity::Debug);
    assert_eq!(to_json_level(defmt_parser::Level::Info), Severity::Info);
    assert_eq!(to_json_level(defmt_parser::Level::Warn), Severity::Warn);
    assert_eq!(to_json_level(defmt_parser::Level::Error), Severity::Error);
}

#[test]
fn location_prefers_relative_path() {
    let loc = SourceLocation { file: "/w/src/main.rs".to_string(), line: 12, module: "app::main".to_string() };
    let i = location_info_with(Some(&loc), Some("src/main.rs".to_string()));
    assert_eq!(i.file.as_deref(), Some("src/main.rs"));
    assert_eq!(i.line, Some(12));
    assert_eq!(i.mod_path.as_deref(), Some("app::main"));
    let i = location_info_with(Some(&loc), None);
    assert_eq!(i.file.as_deref(), Some("/w/src/main.rs"));
    let i = location_info_with(None, None);
    assert!(i.file.is_none() && i.line.is_none() && i.mod_path.is_none());
}

#[test]
fn location_made_relative_to_root() {
    let loc = SourceLocation { file: "/w/src/main.rs".to_string(), line: (1u64 << 32) + 3, module: "m::f".to_string() };
    let i = location_info("/w", Some(&loc));
    assert_eq!(i.file.as_deref(), Some("src/main.rs"));
    assert_eq!(i.line, Some(3));
    let i = location_info("/elsewhere", Some(&loc));
    assert_eq!(i.file.as_deref(), Some("/w/src/main.rs"));
}

#[test]
fn frame_parts_are_kept() {
    let info = LocationInfo { file: Some("f.rs".to_string()), line: Some(4), mod_path: Some("c::m::f".to_string()) };
    let f = frame_from_parts("hi".to_string(), Some(defmt_parser::Level::Warn), info, Some("1.5".to_string()), 42);
    assert_eq!(f.data, "hi");
    assert_eq!(f.host_timestamp, 42);
    assert_eq!(f.level, Some(Severity::Warn));
    assert_eq!(f.location.file.as_deref(), Some("f.rs"));
    let mp = f.location.mod_path.unwrap();
    assert_eq!(mp.crate_name, "c");
    assert_eq!(mp.function, "f");
    assert_eq!(f.target_timestamp, "1.5");
    let info = LocationInfo { file: None, line: None, mod_path: None };
    let f = frame_from_parts(String::new(), None, info, None, i128::MAX);
    assert_eq!(f.host_timestamp, i64::MAX);
    assert_eq!(f.target_timestamp, "");
    let info = LocationInfo { file: None, line: None, mod_path: None };
    let f = frame_from_parts(String::new(), None, info, None, i128::MIN);
    assert_eq!(f.host_timestamp, i64::MIN);
}

#[test]
fn json_frame_is_stamped_now() {
    let f = create_json_frame("/w", "msg".to_string(), None, None, None);
    assert_eq!(f.data, "msg");
    assert!(f.host_timestamp > 1_600_000_000_000_000_000);
    assert!(f.location.file.is_none());
}

#[test]
fn number_formats() {
    assert_eq!(format_u64(0, 10).iter().collect::<String>(), "0");
    assert_eq!(format_u64(19021, 10).iter().collect::<String>(), "19021");
    assert_eq!(format_u64(0x2000_0400, 16).iter().collect::<String>(), "20000400");
    assert_eq!(format_u64(u64::MAX, 16).iter().collect::<String>(), "ffffffffffffffff");
}

#[test]
fn json_extension_ignores_case() {
    assert!(is_json_extension("json"));
    assert!(is_json_extension("JSON"));
    assert!(is_json_extension("Json"));
    assert!(!is_json_extension("jsonl"));
    assert!(!is_json_extension("txt"));
    assert!(!is_json_extension(""));
}

fn run(n: u32) -> TestRun {
    TestRun { name: format!("r{n}"), date: 0, meta: None, logs: None, tests: Vec::new(), nr_of_tests: n }
}

#[test]
fn merging_concatenates_runs() {
    let mut a = CoverageSchema { version: Some("v".to_string()), test_runs: vec![run(0)] };
    let b = CoverageSchema { version: None, test_runs: vec![run(1), run(2)] };
    merge_coverage(&mut a, b);
    let names: Vec<&str> = a.test_runs.iter().map(|r| r.name.as_str()).collect();
    assert_eq!(names, vec!["r0", "r1", "r2"]);
    assert_eq!(a.version.as_deref(), Some("v"));
    assert!(has_tests(&a));
    let c = CoverageSchema { version: None, test_runs: vec![run(0)] };
    assert!(!has_tests(&c));
}

#[test]
fn located_indices() {
    assert!(all_indices_located(&vec![1, 2], &vec![2, 1, 5]));
    assert!(!all_indices_located(&vec![1, 3], &vec![2, 1, 5]));
    assert!(all_indices_located(&vec![], &vec![]));
}

#[test]
fn index_lines() {
    assert!(index_lists("/a/coverage.json\n/b/coverage.json", "/b/coverage.json"));
    assert!(index_lists("/a/coverage.json\r\n/b/coverage.json\n", "/a/coverage.json"));
    assert!(!index_lists("/a/coverage.json.old", "/a/coverage.json"));
    assert!(!index_lists("", "/a/coverage.json"));
    assert!(lines_contain(&vec!["x".to_string(), "y".to_string()], "y"));
    assert!(!lines_contain(&vec![], "y"));
}

#[test]
fn lines_split_as_str_lines() {
    for text in ["", "a", "a\n", "a\r\nb", "a\r", "\n", "\r\n", "a\n\nb\n", "x\r\r\n", "\n\n"] {
        let expected: Vec<String> = text.lines().map(|l| l.to_string()).collect();
        assert_eq!(text_lines(text), expected, "lines of {text:?}");
    }
    assert_eq!(text_lines("a\r\nb\r"), vec!["a".to_string(), "b\r".to_string()]);
}
