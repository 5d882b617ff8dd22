use embedded_runner::coverage::{
    classify_frame, classify_frame_with, coverage_from_defmt_frames, CoverageError, CoverageExtractor,
    FrameKind, Test, TestState,
};
use embedded_runner::frame::{Location, LogFrame, ModulePath};

fn located(data: &str, file: &str, line: u32, crate_name: &str, modules: &[&str]) -> LogFrame {
    LogFrame {
        data: data.to_string(),
        host_timestamp: 1_700_000_000_000_000_000,
        level: None,
        location: Location {
            file: Some(file.to_string()),
            line: Some(line),
            mod_path: Some(ModulePath {
                crate_name: crate_name.to_string(),
                modules: modules.iter().map(|m| m.to_string()).collect(),
                function: "__defmt_test_entry".to_string(),
            }),
        },
        target_timestamp: String::new(),
    }
}

fn plain(data: &str) -> LogFrame {
    LogFrame {
        data: data.to_string(),
        host_timestamp: 1_700_000_000_000_000_001,
        level: None,
        location: Location { file: None, line: None, mod_path: None },
        target_timestamp: String::new(),
    }
}

fn cov(id: &str, file: &str, line: u32) -> LogFrame {
    plain(&format!("mantra: req-id=`{id}`; file='{file}'; line='{line}';"))
}

fn run_tests(frames: &[LogFrame]) -> (u32, Vec<Test>) {
    let schema = coverage_from_defmt_frames("run".to_string(), None, frames, None).unwrap();
    assert_eq!(schema.test_runs.len(), 1);
    let run = schema.test_runs.into_iter().next().unwrap();
    (run.nr_of_tests, run.tests)
}

fn traces(t: &Test) -> Vec<(String, Vec<(u32, Vec<String>)>)> {
    t.covered_files
        .iter()
        .map(|f| {
            (
                f.filepath.clone(),
                f.covered_traces.iter().map(|tr| (tr.line, tr.req_ids.clone())).collect(),
            )
        })
        .collect()
}

#[test]
fn example_run_with_two_tests() {
    let frames = vec![
        located("(1/2) running `t1`...", "tests/t.rs", 5, "mod", &[]),
        cov("R1", "a.rs", 10),
        located("(2/2) running `t2`...", "tests/t.rs", 9, "mod", &[]),
        plain("all tests passed!"),
    ];
    let (nr, tests) = run_tests(&frames);
    assert_eq!(nr, 2);
    assert_eq!(tests.len(), 2);
    assert_eq!(tests[0].name, "mod::t1");
    assert!(matches!(tests[0].state, TestState::Passed));
    assert_eq!(traces(&tests[0]), vec![("a.rs".to_string(), vec![(10, vec!["R1".to_string()])])]);
    assert_eq!(tests[1].name, "mod::t2");
    assert!(matches!(tests[1].state, TestState::Passed));
    assert!(tests[1].covered_files.is_empty());
}

#[test]
fn single_running_test_collects_coverage() {
    let frames = vec![
        located("(1/1) running `only`...", "tests/t.rs", 3, "app", &["tests", "inner"]),
        cov("A", "x.rs", 1),
        plain("some other output"),
        cov("B", "y.rs", 2),
        plain("all tests passed!"),
    ];
    let (nr, tests) = run_tests(&frames);
    assert_eq!(nr, 1);
    assert_eq!(tests.len(), 1);
    assert_eq!(tests[0].name, "app::tests::inner::only");
    assert_eq!(tests[0].filepath, "tests/t.rs");
    assert_eq!(tests[0].line, 3);
    assert!(matches!(tests[0].state, TestState::Passed));
    assert_eq!(
        traces(&tests[0]),
        vec![
            ("x.rs".to_string(), vec![(1, vec!["A".to_string()])]),
            ("y.rs".to_string(), vec![(2, vec!["B".to_string()])]),
        ]
    );
}

#[test]
fn first_test_passes_when_second_starts() {
    let frames = vec![
        located("(1/2) running `a`...", "t.rs", 1, "c", &[]),
        located("(2/2) running `b`...", "t.rs", 2, "c", &[]),
        plain("all tests passed!"),
    ];
    let (_, tests) = run_tests(&frames);
    let names: Vec<&str> = tests.iter().map(|t| t.name.as_str()).collect();
    assert_eq!(names, vec!["c::a", "c::b"]);
    assert!(tests.iter().all(|t| matches!(t.state, TestState::Passed)));
}

#[test]
fn ignored_test_is_skipped_without_coverage() {
    let frames = vec![
        located("(1/2) ignoring `skipped`...", "t.rs", 1, "c", &[]),
        located("(2/2) running `ran`...", "t.rs", 2, "c", &[]),
        cov("R", "f.rs", 4),
        plain("all tests passed!"),
    ];
    let (nr, tests) = run_tests(&frames);
    assert_eq!(nr, 2);
    assert_eq!(tests.len(), 2);
    assert_eq!(tests[0].name, "c::skipped");
    assert!(matches!(tests[0].state, TestState::Skipped { reason: None }));
    assert!(tests[0].covered_files.is_empty());
    assert!(matches!(tests[1].state, TestState::Passed));
    assert_eq!(traces(&tests[1]), vec![("f.rs".to_string(), vec![(4, vec!["R".to_string()])])]);
}

#[test]
fn two_ids_on_one_line_share_a_trace() {
    let frames = vec![
        located("(1/1) running `t`...", "t.rs", 1, "c", &[]),
        cov("R1", "a.rs", 10),
        cov("R2", "a.rs", 10),
        cov("R1", "a.rs", 10),
        cov("R3", "a.rs", 11),
        plain("all tests passed!"),
    ];
    let (_, tests) = run_tests(&frames);
    assert_eq!(
        traces(&tests[0]),
        vec![(
            "a.rs".to_string(),
            vec![(10, vec!["R1".to_string(), "R2".to_string()]), (11, vec!["R3".to_string()])]
        )]
    );
}

#[test]
fn empty_frames_fail() {
    let r = coverage_from_defmt_frames("run".to_string(), None, &[], None);
    assert!(matches!(r, Err(CoverageError::NoTests)));
}

#[test]
fn marker_without_location_fails() {
    let frames = vec![plain("(1/1) running `t`...")];
    let r = coverage_from_defmt_frames("run".to_string(), None, &frames, None);
    assert!(matches!(r, Err(CoverageError::Match(_))));
}

#[test]
fn oversized_test_count_fails() {
    let frames = vec![located("(1/99999999999) running `t`...", "t.rs", 1, "c", &[])];
    let r = coverage_from_defmt_frames("run".to_string(), None, &frames, None);
    assert!(matches!(r, Err(CoverageError::Match(_))));
}

#[test]
fn coverage_before_any_test_is_dropped() {
    let frames = vec![
        cov("EARLY", "e.rs", 1),
        located("(1/1) running `t`...", "t.rs", 1, "c", &[]),
        plain("all tests passed!"),
    ];
    let (_, tests) = run_tests(&frames);
    assert!(tests[0].covered_files.is_empty());
}

#[test]
fn unfinished_test_is_reported_failed() {
    let frames = vec![
        located("(1/2) running `t`...", "t.rs", 1, "c", &[]),
        cov("R", "a.rs", 2),
    ];
    let (nr, tests) = run_tests(&frames);
    assert_eq!(nr, 2);
    assert_eq!(tests.len(), 1);
    assert!(matches!(tests[0].state, TestState::Failed));
    assert_eq!(traces(&tests[0]), vec![("a.rs".to_string(), vec![(2, vec!["R".to_string()])])]);
}

#[test]
fn declared_count_comes_from_first_marker() {
    let frames = vec![
        located("(1/3) running `a`...", "t.rs", 1, "c", &[]),
        located("(2/7) running `b`...", "t.rs", 2, "c", &[]),
        plain("all tests passed!"),
    ];
    let (nr, _) = run_tests(&frames);
    assert_eq!(nr, 3);
}

#[test]
fn run_keeps_name_date_and_logs() {
    let frames = vec![plain("hello")];
    let schema = coverage_from_defmt_frames(
        "my run".to_string(),
        Some(serde_json::Value::Bool(true)),
        &frames,
        Some("log text".to_string()),
    )
    .unwrap();
    assert_eq!(schema.version.as_deref(), Some("0.7.8"));
    let run = &schema.test_runs[0];
    assert_eq!(run.name, "my run");
    assert_eq!(run.date, 1_700_000_000_000_000_001);
    assert_eq!(run.meta, Some(serde_json::Value::Bool(true)));
    assert_eq!(run.logs.as_deref(), Some("log text"));
    assert_eq!(run.nr_of_tests, 0);
    assert!(run.tests.is_empty());
}

#[test]
fn classify_reads_coverage_annotation() {
    match classify_frame("mantra: req-id=`REQ-1`; file='src/x.rs'; line='42';") {
        FrameKind::Coverage { id, file, line } => {
            assert_eq!(id, "REQ-1");
            assert_eq!(file, "src/x.rs");
            assert_eq!(line, 42);
        }
        _ => panic!("not read as coverage"),
    }
    assert!(matches!(classify_frame("all tests passed!"), FrameKind::AllPassed));
    assert!(matches!(classify_frame("all tests passed"), FrameKind::Other));
}

#[test]
fn classify_prefers_marker_over_given_coverage() {
    let given = Some(("R".to_string(), "f.rs".to_string(), 1));
    assert!(matches!(classify_frame_with("(1/1) running `t`...", given.clone()), FrameKind::Marker(_)));
    assert!(matches!(classify_frame_with("text", given), FrameKind::Coverage { .. }));
    assert!(matches!(classify_frame_with("text", None), FrameKind::Other));
}

#[test]
fn extractor_applies_frames_one_by_one() {
    let mut ex = CoverageExtractor::new();
    let f = located("(1/1) running `t`...", "t.rs", 7, "k", &[]);
    ex.apply(&f.location, classify_frame(&f.data)).unwrap();
    let tests = ex.finish();
    assert_eq!(tests.len(), 1);
    assert_eq!(tests[0].name, "k::t");
    assert!(matches!(tests[0].state, TestState::Failed));
}

#[test]
fn coverage_after_ignored_test_is_dropped() {
    let frames = vec![
        located("(1/2) ignoring `skipped`...", "t.rs", 1, "c", &[]),
        cov("LOST", "x.rs", 3),
        located("(2/2) running `ran`...", "t.rs", 2, "c", &[]),
        plain("all tests passed!"),
    ];
    let (_, tests) = run_tests(&frames);
    assert_eq!(tests.len(), 2);
    assert!(tests[0].covered_files.is_empty());
    assert!(tests[1].covered_files.is_empty());
}

#[test]
fn coverage_between_two_running_tests_is_split() {
    let frames = vec![
        located("(1/2) running `a`...", "t.rs", 1, "c", &[]),
        cov("A1", "x.rs", 1),
        located("(2/2) running `b`...", "t.rs", 2, "c", &[]),
        cov("B1", "y.rs", 2),
        cov("B1", "y.rs", 2),
        plain("all tests passed!"),
    ];
    let (_, tests) = run_tests(&frames);
    assert_eq!(traces(&tests[0]), vec![("x.rs".to_string(), vec![(1, vec!["A1".to_string()])])]);
    assert_eq!(traces(&tests[1]), vec![("y.rs".to_string(), vec![(2, vec!["B1".to_string()])])]);
}
