//! Turning an ordered sequence of log frames into a test run: which tests ran, how
//! each ended, and which requirement IDs were reported as covered at which lines.
use vstd::prelude::*;

use crate::frame::{
    modules_suffix, opt_string_view, strings_view, Location, LocationView, LogFrame, LogFrameView,
    ModulePathView,
};
use crate::marker::{parse_marker, parse_test_marker, MarkerView, TestMarker};
use crate::text::{chars_of, contains_text, push_all, same_chars, string_of};

verus! {

/// How a test ended.
#[derive(Clone, Debug)]
pub enum TestState {
    Passed,
    Failed,
    Skipped { reason: Option<String> },
}

/// The requirement IDs reported as covered at one line.
#[derive(Clone, Debug)]
pub struct CoveredFileTrace {
    pub req_ids: Vec<String>,
    pub line: u32,
}

/// The covered lines of one file.
#[derive(Clone, Debug)]
pub struct CoveredFile {
    pub filepath: String,
    pub covered_traces: Vec<CoveredFileTrace>,
}

/// One test of a run.
#[derive(Clone, Debug)]
pub struct Test {
    pub name: String,
    pub filepath: String,
    pub line: u32,
    pub state: TestState,
    pub covered_files: Vec<CoveredFile>,
}

pub struct TraceView {
    pub line: u32,
    pub req_ids: Seq<Seq<char>>,
}

pub struct FileView {
    pub filepath: Seq<char>,
    pub traces: Seq<TraceView>,
}

pub enum StateView {
    Passed,
    Failed,
    Skipped(Option<Seq<char>>),
}

pub struct TestView {
    pub name: Seq<char>,
    pub filepath: Seq<char>,
    pub line: u32,
    pub state: StateView,
    pub covered: Seq<FileView>,
}

impl View for CoveredFileTrace {
    type V = TraceView;

    open spec fn view(&self) -> TraceView {
        TraceView { line: self.line, req_ids: strings_view(self.req_ids@) }
    }
}

pub open spec fn traces_view(ts: Seq<CoveredFileTrace>) -> Seq<TraceView> {
    ts.map_values(|t: CoveredFileTrace| t@)
}

impl View for CoveredFile {
    type V = FileView;

    open spec fn view(&self) -> FileView {
        FileView { filepath: self.filepath@, traces: traces_view(self.covered_traces@) }
    }
}

pub open spec fn files_view(fs: Seq<CoveredFile>) -> Seq<FileView> {
    fs.map_values(|f: CoveredFile| f@)
}

impl View for TestState {
    type V = StateView;

    open spec fn view(&self) -> StateView {
        match self {
            TestState::Passed => StateView::Passed,
            TestState::Failed => StateView::Failed,
            TestState::Skipped { reason } => StateView::Skipped(opt_string_view(*reason)),
        }
    }
}

impl View for Test {
    type V = TestView;

    open spec fn view(&self) -> TestView {
        TestView {
            name: self.name@,
            filepath: self.filepath@,
            line: self.line,
            state: self.state@,
            covered: files_view(self.covered_files@),
        }
    }
}

pub open spec fn tests_view(ts: Seq<Test>) -> Seq<TestView> {
    ts.map_values(|t: Test| t@)
}

/// Adds a requirement ID to a set kept as a sequence without repetitions.
pub open spec fn ids_insert(ids: Seq<Seq<char>>, id: Seq<char>) -> Seq<Seq<char>> {
    if ids.contains(id) {
        ids
    } else {
        ids.push(id)
    }
}

/// `j` is the first trace of `ts` for `line`.
pub open spec fn trace_at(ts: Seq<TraceView>, line: u32, j: int) -> bool {
    0 <= j < ts.len() && ts[j].line == line && forall|k: int| 0 <= k < j ==> (#[trigger] ts[k]).line
        != line
}

/// Records `id` at `line`: into the line's trace where there is one, else in a new
/// trace at the end.
pub open spec fn trace_insert(ts: Seq<TraceView>, line: u32, id: Seq<char>) -> Seq<TraceView> {
    if exists|j: int| trace_at(ts, line, j) {
        let j = choose|j: int| trace_at(ts, line, j);
        ts.update(j, TraceView { line, req_ids: ids_insert(ts[j].req_ids, id) })
    } else {
        ts.push(TraceView { line, req_ids: seq![id] })
    }
}

/// `i` is the first entry of `fs` for `file`.
pub open spec fn file_at(fs: Seq<FileView>, file: Seq<char>, i: int) -> bool {
    0 <= i < fs.len() && fs[i].filepath == file && forall|k: int| 0 <= k < i ==> (#[trigger] fs[
        k]).filepath != file
}

/// Records `id` at `(file, line)`.
pub open spec fn acc_insert(fs: Seq<FileView>, file: Seq<char>, line: u32, id: Seq<char>) -> Seq<
    FileView,
> {
    if exists|i: int| file_at(fs, file, i) {
        let i = choose|i: int| file_at(fs, file, i);
        fs.update(i, FileView { filepath: file, traces: trace_insert(fs[i].traces, line, id) })
    } else {
        fs.push(FileView { filepath: file, traces: seq![TraceView { line, req_ids: seq![id] }] })
    }
}

fn insert_req_id(ids: &mut Vec<String>, id: String)
    ensures
        strings_view(final(ids)@) == ids_insert(strings_view(old(ids)@), id@),
{
    let ghost v = strings_view(ids@);
    let mut k: usize = 0;
    while k < ids.len()
        invariant
            k <= ids.len(),
            v == strings_view(ids@),
            v == strings_view(old(ids)@),
            forall|j: int| 0 <= j < k ==> v[j] != id@,
        decreases ids.len() - k,
    {
        if ids[k] == id {
            proof {
                assert(v[k as int] == id@);
                assert(v.contains(id@));
            }
            return;
        }
        k = k + 1;
    }
    ids.push(id);
    proof {
        assert(!v.contains(id@));
        assert(strings_view(ids@) =~= v.push(id@));
    }
}

fn insert_trace(ts: &mut Vec<CoveredFileTrace>, line: u32, id: String)
    ensures
        traces_view(final(ts)@) == trace_insert(traces_view(old(ts)@), line, id@),
{
    let ghost v = traces_view(ts@);
    let mut k: usize = 0;
    while k < ts.len()
        invariant
            k <= ts.len(),
            v == traces_view(ts@),
            v == traces_view(old(ts)@),
            forall|j: int| 0 <= j < k ==> v[j].line != line,
        decreases ts.len() - k,
    {
        if ts[k].line == line {
            proof {
                assert(trace_at(v, line, k as int));
                let c = choose|j: int| trace_at(v, line, j);
                assert(c == k);
            }
            let mut t = ts.remove(k);
            insert_req_id(&mut t.req_ids, id);
            ts.insert(k, t);
            proof {
                assert(traces_view(ts@) =~= trace_insert(v, line, id@));
            }
            return;
        }
        k = k + 1;
    }
    let mut ids: Vec<String> = Vec::new();
    let ghost idv = id@;
    ids.push(id);
    ts.push(CoveredFileTrace { req_ids: ids, line });
    proof {
        assert(!(exists|j: int| trace_at(v, line, j)));
        assert(strings_view(ids@) =~= seq![idv]);
        assert(traces_view(ts@) =~= v.push(TraceView { line, req_ids: seq![idv] }));
    }
}

/// Records that requirement `id` was covered at `line` of `file`.
pub fn insert_coverage(acc: &mut Vec<CoveredFile>, file: String, line: u32, id: String)
    ensures
        files_view(final(acc)@) == acc_insert(files_view(old(acc)@), file@, line, id@),
{
    let ghost v = files_view(acc@);
    let mut k: usize = 0;
    while k < acc.len()
        invariant
            k <= acc.len(),
            v == files_view(acc@),
            v == files_view(old(acc)@),
            forall|j: int| 0 <= j < k ==> v[j].filepath != file@,
        decreases acc.len() - k,
    {
        if acc[k].filepath == file {
            proof {
                assert(file_at(v, file@, k as int));
                let c = choose|j: int| file_at(v, file@, j);
                assert(c == k);
            }
            let mut f = acc.remove(k);
            insert_trace(&mut f.covered_traces, line, id);
            acc.insert(k, f);
            proof {
                assert(files_view(acc@) =~= acc_insert(v, file@, line, id@));
            }
            return;
        }
        k = k + 1;
    }
    let ghost fv = file@;
    let ghost idv = id@;
    let mut ids: Vec<String> = Vec::new();
    ids.push(id);
    let mut traces: Vec<CoveredFileTrace> = Vec::new();
    traces.push(CoveredFileTrace { req_ids: ids, line });
    acc.push(CoveredFile { filepath: file, covered_traces: traces });
    proof {
        assert(!(exists|j: int| file_at(v, fv, j)));
        assert(strings_view(ids@) =~= seq![idv]);
        assert(traces_view(traces@) =~= seq![TraceView { line, req_ids: seq![idv] }]);
        assert(files_view(acc@) =~= v.push(
            FileView { filepath: fv, traces: seq![TraceView { line, req_ids: seq![idv] }] },
        ));
    }
}


/// Free-form run metadata, carried through unread.
#[verifier::external_type_specification]
#[verifier::external_body]
pub struct ExJsonValue(serde_json::Value);

/// A test run: its tests in the order in which they ended.
pub struct TestRun {
    pub name: String,
    /// Unix time of the run's first frame, in nanoseconds.
    pub date: i64,
    pub meta: Option<serde_json::Value>,
    pub logs: Option<String>,
    pub tests: Vec<Test>,
    pub nr_of_tests: u32,
}

/// The exchanged unit of coverage data.
pub struct CoverageSchema {
    pub version: Option<String>,
    pub test_runs: Vec<TestRun>,
}

#[derive(Debug)]
pub enum CoverageError {
    /// The frame sequence was empty.
    NoTests,
    /// The first frame's timestamp is no valid instant.
    BadDate(String),
    /// A test marker lacks its location, or declares a count that does not fit.
    Match(String),
}

/// What a frame means to the extraction.
pub enum FrameKind {
    Marker(TestMarker),
    Coverage { id: String, file: String, line: u32 },
    AllPassed,
    Other,
}

pub enum FrameKindView {
    Marker(MarkerView),
    Coverage(Seq<char>, Seq<char>, u32),
    AllPassed,
    Other,
}

impl View for FrameKind {
    type V = FrameKindView;

    open spec fn view(&self) -> FrameKindView {
        match self {
            FrameKind::Marker(m) => FrameKindView::Marker(m@),
            FrameKind::Coverage { id, file, line } => FrameKindView::Coverage(id@, file@, *line),
            FrameKind::AllPassed => FrameKindView::AllPassed,
            FrameKind::Other => FrameKindView::Other,
        }
    }
}

/// The first coverage annotation in a text, as `(requirement ID, file, line)`.
pub uninterp spec fn first_coverage_of(s: Seq<char>) -> Option<(Seq<char>, Seq<char>, u32)>;

pub open spec fn coverage_view(c: Option<(String, String, u32)>) -> Option<
    (Seq<char>, Seq<char>, u32),
> {
    match c {
        Some(t) => Some((t.0@, t.1@, t.2)),
        None => None,
    }
}

/// The annotation that a text holds: none where the text lacks the annotation's
/// opening `mantra: req-id=`, which the extractor's pattern starts with.
pub open spec fn coverage_in(s: Seq<char>) -> Option<(Seq<char>, Seq<char>, u32)> {
    if contains_text(s, "mantra: req-id="@) {
        first_coverage_of(s)
    } else {
        None
    }
}

/// Relies on `mantra_rust_macros::extract::extract_first_coverage`, which reads the first
/// match of the pattern ``mantra: req-id=`(.+)`; file='(.+)'; line='(\d+)';`` in a
/// text; its result depends on the text alone, and there is none without the pattern's
/// literal opening.
#[verifier::external_body]
fn extract_first_coverage(s: &str) -> (r: Option<(String, String, u32)>)
    ensures
        contains_text(s@, "mantra: req-id="@) ==> coverage_view(r) == first_coverage_of(s@),
        !contains_text(s@, "mantra: req-id="@) ==> r is None,
{
    mantra_rust_macros::extract::extract_first_coverage(s).map(
        |c| (c.id, c.file.to_string_lossy().into_owned(), c.line),
    )
}

/// The text of the frame that ends a fully passing test binary.
pub open spec fn all_passed_text() -> Seq<char> {
    "all tests passed!"@
}

/// A frame's meaning given the coverage annotation found in its text: a test marker
/// first, then a coverage annotation, then the closing frame.
pub open spec fn kind_given(data: Seq<char>, cov: Option<(Seq<char>, Seq<char>, u32)>) -> FrameKindView {
    match parse_marker(data) {
        Some(m) => FrameKindView::Marker(m),
        None => match cov {
            Some(c) => FrameKindView::Coverage(c.0, c.1, c.2),
            None => if data == all_passed_text() {
                FrameKindView::AllPassed
            } else {
                FrameKindView::Other
            },
        },
    }
}

pub open spec fn frame_kind(data: Seq<char>) -> FrameKindView {
    kind_given(data, coverage_in(data))
}

/// Classifies a frame's text, given the coverage annotation found in it.
pub fn classify_frame_with(data: &str, coverage: Option<(String, String, u32)>) -> (r: FrameKind)
    ensures
        r@ == kind_given(data@, coverage_view(coverage)),
{
    let cs = chars_of(data);
    match parse_test_marker(&cs) {
        Some(m) => FrameKind::Marker(m),
        None => match coverage {
            Some(c) => FrameKind::Coverage { id: c.0, file: c.1, line: c.2 },
            None => {
                let end = chars_of("all tests passed!");
                if same_chars(&cs, &end) {
                    FrameKind::AllPassed
                } else {
                    FrameKind::Other
                }
            },
        },
    }
}

/// Classifies a frame's text.
pub fn classify_frame(data: &str) -> (r: FrameKind)
    ensures
        r@ == frame_kind(data@),
{
    let coverage = extract_first_coverage(data);
    classify_frame_with(data, coverage)
}

/// `crate::module::...::function`.
pub open spec fn qualified_name(mp: ModulePathView, f: Seq<char>) -> Seq<char> {
    mp.crate_name + modules_suffix(mp.modules) + "::"@ + f
}

/// The state of an extraction: the tests ended so far, the open test, the coverage
/// gathered while it is open, and the declared number of tests once a marker gave it.
pub struct ExtractView {
    pub tests: Seq<TestView>,
    pub current: Option<TestView>,
    pub covered: Seq<FileView>,
    pub nr_of_tests: Option<u32>,
}

pub open spec fn initial_extract() -> ExtractView {
    ExtractView { tests: Seq::empty(), current: None, covered: Seq::empty(), nr_of_tests: None }
}

/// Ends the open test, if any, as passed, with the coverage gathered for it.
pub open spec fn close_open_test(s: ExtractView) -> ExtractView {
    match s.current {
        Some(t) => ExtractView {
            tests: s.tests.push(
                TestView {
                    name: t.name,
                    filepath: t.filepath,
                    line: t.line,
                    state: StateView::Passed,
                    covered: s.covered,
                },
            ),
            current: None,
            covered: Seq::empty(),
            nr_of_tests: s.nr_of_tests,
        },
        None => s,
    }
}

/// One frame's effect; `None` where the frame is a marker without location or with a
/// count that does not fit.
pub open spec fn step(s: ExtractView, loc: LocationView, kind: FrameKindView) -> Option<ExtractView> {
    match kind {
        FrameKindView::Marker(m) => {
            let c = close_open_test(s);
            if m.total is None || loc.file is None || loc.line is None || loc.mod_path is None {
                None
            } else {
                let nr = if c.nr_of_tests is Some {
                    c.nr_of_tests
                } else {
                    m.total
                };
                let t = TestView {
                    name: qualified_name(loc.mod_path->0, m.fn_name),
                    filepath: loc.file->0,
                    line: loc.line->0,
                    state: if m.running {
                        StateView::Failed
                    } else {
                        StateView::Skipped(None)
                    },
                    covered: Seq::empty(),
                };
                if m.running {
                    Some(
                        ExtractView {
                            tests: c.tests,
                            current: Some(t),
                            covered: c.covered,
                            nr_of_tests: nr,
                        },
                    )
                } else {
                    Some(
                        ExtractView {
                            tests: c.tests.push(t),
                            current: None,
                            covered: c.covered,
                            nr_of_tests: nr,
                        },
                    )
                }
            }
        },
        FrameKindView::Coverage(id, file, line) => if s.current is Some {
            Some(
                ExtractView {
                    tests: s.tests,
                    current: s.current,
                    covered: acc_insert(s.covered, file, line, id),
                    nr_of_tests: s.nr_of_tests,
                },
            )
        } else {
            Some(s)
        },
        FrameKindView::AllPassed => Some(close_open_test(s)),
        FrameKindView::Other => Some(s),
    }
}

/// The state after the given frames, or `None` where one of them was refused.
pub open spec fn extract(frames: Seq<LogFrameView>) -> Option<ExtractView>
    decreases frames.len(),
{
    if frames.len() == 0 {
        Some(initial_extract())
    } else {
        match extract(frames.drop_last()) {
            Some(s) => step(s, frames.last().location, frame_kind(frames.last().data)),
            None => None,
        }
    }
}

/// The tests of a finished extraction: a test still open is reported as failed, with
/// the coverage gathered for it.
pub open spec fn finished_tests(s: ExtractView) -> Seq<TestView> {
    match s.current {
        Some(t) => s.tests.push(
            TestView {
                name: t.name,
                filepath: t.filepath,
                line: t.line,
                state: t.state,
                covered: s.covered,
            },
        ),
        None => s.tests,
    }
}

/// The frames of a sequence, as values.
pub open spec fn frames_view(frames: Seq<LogFrame>) -> Seq<LogFrameView> {
    frames.map_values(|f: LogFrame| f@)
}

/// The extraction state machine.
pub struct CoverageExtractor {
    tests: Vec<Test>,
    current: Option<Test>,
    covered: Vec<CoveredFile>,
    nr_of_tests: Option<u32>,
}

impl View for CoverageExtractor {
    type V = ExtractView;

    closed spec fn view(&self) -> ExtractView {
        ExtractView {
            tests: tests_view(self.tests@),
            current: match self.current {
                Some(t) => Some(t@),
                None => None,
            },
            covered: files_view(self.covered@),
            nr_of_tests: self.nr_of_tests,
        }
    }
}

impl CoverageExtractor {
    /// No test seen yet.
    pub fn new() -> (r: CoverageExtractor)
        ensures
            r@ == initial_extract(),
    {
        let r = CoverageExtractor {
            tests: Vec::new(),
            current: None,
            covered: Vec::new(),
            nr_of_tests: None,
        };
        proof {
            assert(r@.tests =~= Seq::<TestView>::empty());
            assert(r@.covered =~= Seq::<FileView>::empty());
        }
        r
    }

    fn close_open_test(&mut self)
        ensures
            final(self)@ == close_open_test(old(self)@),
    {
        match self.current.take() {
            Some(t) => {
                let ghost tv = t@;
                let ghost before = self@;
                let mut covered: Vec<CoveredFile> = Vec::new();
                std::mem::swap(&mut covered, &mut self.covered);
                let done = Test {
                    name: t.name,
                    filepath: t.filepath,
                    line: t.line,
                    state: TestState::Passed,
                    covered_files: covered,
                };
                self.tests.push(done);
                proof {
                    assert(tests_view(self.tests@) =~= before.tests.push(done@));
                    assert(files_view(self.covered@) =~= Seq::<FileView>::empty());
                }
            },
            None => {},
        }
    }

    /// Applies one frame, classified as `kind`.
    pub fn apply(&mut self, location: &Location, kind: FrameKind) -> (r: Result<(), CoverageError>)
        ensures
            match step(old(self)@, location@, kind@) {
                Some(s) => r is Ok && final(self)@ == s,
                None => r matches Err(CoverageError::Match(_)),
            },
    {
        match kind {
            FrameKind::Marker(m) => {
                self.close_open_test();
                let total = match m.total {
                    Some(t) => t,
                    None => {
                        return Err(CoverageError::Match(string_of(&chars_of("declared number of tests does not fit"))));
                    },
                };
                let (file, line, mp) = match (&location.file, location.line, &location.mod_path) {
                    (Some(f), Some(l), Some(mp)) => (f, l, mp),
                    _ => {
                        return Err(CoverageError::Match(string_of(&chars_of("missing location information for a test marker"))));
                    },
                };
                if self.nr_of_tests.is_none() {
                    self.nr_of_tests = Some(total);
                }
                let name = test_name(&mp.crate_name, &mp.modules, &m.fn_name);
                if m.running {
                    let t = Test {
                        name,
                        filepath: file.clone(),
                        line,
                        state: TestState::Failed,
                        covered_files: Vec::new(),
                    };
                    proof {
                        assert(files_view(t.covered_files@) =~= Seq::<FileView>::empty());
                    }
                    self.current = Some(t);
                } else {
                    let t = Test {
                        name,
                        filepath: file.clone(),
                        line,
                        state: TestState::Skipped { reason: None },
                        covered_files: Vec::new(),
                    };
                    let ghost before = tests_view(self.tests@);
                    proof {
                        assert(files_view(t.covered_files@) =~= Seq::<FileView>::empty());
                    }
                    self.tests.push(t);
                    proof {
                        assert(tests_view(self.tests@) =~= before.push(t@));
                    }
                }
                Ok(())
            },
            FrameKind::Coverage { id, file, line } => {
                if self.current.is_some() {
                    insert_coverage(&mut self.covered, file, line, id);
                }
                Ok(())
            },
            FrameKind::AllPassed => {
                self.close_open_test();
                Ok(())
            },
            FrameKind::Other => Ok(()),
        }
    }

    /// The tests of the run, an open test reported as failed.
    pub fn finish(self) -> (r: Vec<Test>)
        ensures
            tests_view(r@) == finished_tests(self@),
    {
        let CoverageExtractor { mut tests, current, covered, nr_of_tests: _ } = self;
        let ghost before = tests_view(tests@);
        match current {
            Some(t) => {
                let done = Test {
                    name: t.name,
                    filepath: t.filepath,
                    line: t.line,
                    state: t.state,
                    covered_files: covered,
                };
                tests.push(done);
                proof {
                    assert(tests_view(tests@) =~= before.push(done@));
                }
            },
            None => {},
        }
        tests
    }

    /// The declared number of tests, 0 where no marker gave one.
    pub fn nr_of_tests(&self) -> (r: u32)
        ensures
            r == match self@.nr_of_tests {
                Some(n) => n,
                None => 0,
            },
    {
        match self.nr_of_tests {
            Some(n) => n,
            None => 0,
        }
    }
}

/// `crate::module::...::function` as a string.
fn test_name(crate_name: &String, modules: &Vec<String>, fn_name: &Vec<char>) -> (r: String)
    ensures
        r@ == qualified_name(
            ModulePathView {
                crate_name: crate_name@,
                modules: strings_view(modules@),
                function: Seq::empty(),
            },
            fn_name@,
        ),
{
    let sep = chars_of("::");
    let mut name = chars_of(crate_name.as_str());
    let ghost ms = strings_view(modules@);
    let mut k: usize = 0;
    proof {
        assert(ms.take(0) =~= Seq::<Seq<char>>::empty());
    }
    while k < modules.len()
        invariant
            k <= modules.len(),
            ms == strings_view(modules@),
            sep@ == "::"@,
            name@ == crate_name@ + modules_suffix(ms.take(k as int)),
        decreases modules.len() - k,
    {
        let m = chars_of(modules[k].as_str());
        push_all(&mut name, &sep);
        push_all(&mut name, &m);
        proof {
            let t = ms.take(k + 1);
            assert(t.drop_last() =~= ms.take(k as int));
            assert(t.last() == ms[k as int]);
            assert(name@ =~= crate_name@ + modules_suffix(t));
        }
        k = k + 1;
    }
    push_all(&mut name, &sep);
    push_all(&mut name, fn_name);
    proof {
        assert(ms.take(modules.len() as int) =~= ms);
        assert(name@ =~= crate_name@ + modules_suffix(ms) + "::"@ + fn_name@);
    }
    string_of(&name)
}


/// Relies on `time::OffsetDateTime::from_unix_timestamp_nanos`, which accepts every count
/// of nanoseconds whose whole seconds lie between the first and the last second of its
/// supported years (at least -9999 to 9999): every `i64` count does.
#[verifier::external_body]
fn is_valid_unix_nanos(ts: i64) -> (r: bool)
    ensures
        r,
{
    time::OffsetDateTime::from_unix_timestamp_nanos(ts as i128).is_ok()
}

/// Relies on `mantra_schema::SCHEMA_VERSION`, the version of the schema crate (0.7.8).
#[verifier::external_body]
fn schema_version() -> (r: String)
    ensures
        r@ == "0.7.8"@,
{
    mantra_schema::SCHEMA_VERSION.to_string()
}

/// The declared number of tests of a finished extraction.
pub open spec fn declared_tests(s: ExtractView) -> u32 {
    match s.nr_of_tests {
        Some(n) => n,
        None => 0,
    }
}

/// `c` holds exactly one run, made of the given values and of the extraction `s`.
pub open spec fn schema_from(
    c: CoverageSchema,
    run_name: Seq<char>,
    meta: Option<serde_json::Value>,
    date: i64,
    logs: Option<Seq<char>>,
    s: ExtractView,
) -> bool {
    &&& opt_string_view(c.version) == Some("0.7.8"@)
    &&& c.test_runs@.len() == 1
    &&& c.test_runs@[0].name@ == run_name
    &&& c.test_runs@[0].date == date
    &&& c.test_runs@[0].meta == meta
    &&& opt_string_view(c.test_runs@[0].logs) == logs
    &&& tests_view(c.test_runs@[0].tests@) == finished_tests(s)
    &&& c.test_runs@[0].nr_of_tests == declared_tests(s)
}

/// Builds the coverage record of one run from its frames.
pub fn coverage_from_defmt_frames(
    run_name: String,
    meta: Option<serde_json::Value>,
    frames: &[LogFrame],
    logs: Option<String>,
) -> (r: Result<CoverageSchema, CoverageError>)
    ensures
        frames@.len() == 0 ==> r matches Err(CoverageError::NoTests),
        frames@.len() > 0 ==> match extract(frames_view(frames@)) {
            None => r matches Err(CoverageError::Match(_)),
            Some(s) => r matches Ok(c) && schema_from(
                c,
                run_name@,
                meta,
                frames@[0].host_timestamp,
                opt_string_view(logs),
                s,
            ),
        },
{
    if frames.len() == 0 {
        return Err(CoverageError::NoTests);
    }
    let date = frames[0].host_timestamp;
    if !is_valid_unix_nanos(date) {
        return Err(CoverageError::BadDate(string_of(&chars_of("timestamp is not a valid date"))));
    }
    let ghost fv = frames_view(frames@);
    let mut ex = CoverageExtractor::new();
    let mut i: usize = 0;
    proof {
        assert(fv.take(0) =~= Seq::<LogFrameView>::empty());
    }
    while i < frames.len()
        invariant
            i <= frames.len(),
            fv == frames_view(frames@),
            extract(fv.take(i as int)) == Some(ex@),
        decreases frames.len() - i,
    {
        let kind = classify_frame(frames[i].data.as_str());
        proof {
            let t = fv.take(i + 1);
            assert(t.drop_last() =~= fv.take(i as int));
            assert(t.last() == frames@[i as int]@);
        }
        match ex.apply(&frames[i].location, kind) {
            Ok(()) => {},
            Err(e) => {
                proof {
                    lemma_extract_refused_stays(fv, i + 1);
                }
                return Err(e);
            },
        }
        i = i + 1;
    }
    proof {
        assert(fv.take(frames.len() as int) =~= fv);
    }
    let nr_of_tests = ex.nr_of_tests();
    let tests = ex.finish();
    let run = TestRun { name: run_name, date, meta, logs, tests, nr_of_tests };
    let mut test_runs: Vec<TestRun> = Vec::new();
    test_runs.push(run);
    Ok(CoverageSchema { version: Some(schema_version()), test_runs })
}

/// Once a prefix of the frames is refused, the whole sequence is.
pub proof fn lemma_extract_refused_stays(frames: Seq<LogFrameView>, k: int)
    requires
        0 <= k <= frames.len(),
        extract(frames.take(k)) is None,
    ensures
        extract(frames) is None,
    decreases frames.len() - k,
{
    if k == frames.len() {
        assert(frames.take(k) =~= frames);
    } else {
        let t = frames.take(k + 1);
        assert(t.drop_last() =~= frames.take(k));
        lemma_extract_refused_stays(frames, k + 1);
    }
}


/// No two entries for one file, no two traces for one line of a file, and every
/// trace holds a non-empty set of requirement IDs.
pub open spec fn acc_wf(fs: Seq<FileView>) -> bool {
    &&& forall|i: int, j: int|
        0 <= i < j < fs.len() ==> (#[trigger] fs[i]).filepath != (#[trigger] fs[j]).filepath
    &&& forall|i: int| 0 <= i < fs.len() ==> traces_wf(#[trigger] fs[i].traces)
}

pub open spec fn traces_wf(ts: Seq<TraceView>) -> bool {
    &&& forall|i: int, j: int| 0 <= i < j < ts.len() ==> (#[trigger] ts[i]).line != (#[trigger] ts[j]).line
    &&& forall|i: int| 0 <= i < ts.len() ==> (#[trigger] ts[i]).req_ids.no_duplicates() && ts[i].req_ids.len() > 0
}

proof fn lemma_least_trace(ts: Seq<TraceView>, line: u32, k: int)
    requires
        0 <= k < ts.len(),
        ts[k].line == line,
    ensures
        exists|j: int| trace_at(ts, line, j),
    decreases k,
{
    if exists|k2: int| 0 <= k2 < k && ts[k2].line == line {
        let k2 = choose|k2: int| 0 <= k2 < k && ts[k2].line == line;
        lemma_least_trace(ts, line, k2);
    } else {
        assert(trace_at(ts, line, k));
    }
}

proof fn lemma_least_file(fs: Seq<FileView>, file: Seq<char>, k: int)
    requires
        0 <= k < fs.len(),
        fs[k].filepath == file,
    ensures
        exists|i: int| file_at(fs, file, i),
    decreases k,
{
    if exists|k2: int| 0 <= k2 < k && fs[k2].filepath == file {
        let k2 = choose|k2: int| 0 <= k2 < k && fs[k2].filepath == file;
        lemma_least_file(fs, file, k2);
    } else {
        assert(file_at(fs, file, k));
    }
}

/// Where `trace_insert` records: the first trace for the line, which then holds `id`.
proof fn lemma_trace_insert_at(ts: Seq<TraceView>, line: u32, id: Seq<char>) -> (j: int)
    ensures
        trace_at(trace_insert(ts, line, id), line, j),
        trace_insert(ts, line, id)[j].req_ids == ids_insert(
            if j < ts.len() {
                ts[j].req_ids
            } else {
                Seq::empty()
            },
            id,
        ),
        j < ts.len() ==> trace_at(ts, line, j),
        j == ts.len() ==> forall|k: int| 0 <= k < ts.len() ==> (#[trigger] ts[k]).line != line,
        trace_insert(ts, line, id).len() == if j < ts.len() {
            ts.len()
        } else {
            ts.len() + 1
        },
        forall|k: int| 0 <= k < ts.len() && k != j ==> #[trigger] trace_insert(ts, line, id)[k] == ts[k],
{
    let r = trace_insert(ts, line, id);
    if exists|j: int| trace_at(ts, line, j) {
        let j = choose|j: int| trace_at(ts, line, j);
        assert forall|k: int| 0 <= k < j implies (#[trigger] r[k]).line != line by {
            assert(r[k] == ts[k]);
        }
        j
    } else {
        assert forall|k: int| 0 <= k < ts.len() implies (#[trigger] ts[k]).line != line by {
            if ts[k].line == line {
                lemma_least_trace(ts, line, k);
            }
        }
        assert(seq![id] =~= Seq::<Seq<char>>::empty().push(id));
        assert forall|k: int| 0 <= k < ts.len() implies (#[trigger] r[k]).line != line by {
            assert(r[k] == ts[k]);
        }
        ts.len() as int
    }
}

/// Where `acc_insert` records: the first entry for the file.
proof fn lemma_acc_insert_at(fs: Seq<FileView>, file: Seq<char>, line: u32, id: Seq<char>) -> (i: int)
    ensures
        file_at(acc_insert(fs, file, line, id), file, i),
        acc_insert(fs, file, line, id)[i].traces == trace_insert(
            if i < fs.len() {
                fs[i].traces
            } else {
                Seq::empty()
            },
            line,
            id,
        ),
        i < fs.len() ==> file_at(fs, file, i),
        i == fs.len() ==> forall|k: int| 0 <= k < fs.len() ==> (#[trigger] fs[k]).filepath != file,
        forall|k: int| 0 <= k < fs.len() && k != i ==> #[trigger] acc_insert(fs, file, line, id)[k] == fs[k],
        acc_insert(fs, file, line, id).len() == if i < fs.len() {
            fs.len()
        } else {
            fs.len() + 1
        },
{
    let r = acc_insert(fs, file, line, id);
    if exists|i: int| file_at(fs, file, i) {
        let i = choose|i: int| file_at(fs, file, i);
        assert forall|k: int| 0 <= k < i implies (#[trigger] r[k]).filepath != file by {
            assert(r[k] == fs[k]);
        }
        i
    } else {
        assert forall|k: int| 0 <= k < fs.len() implies (#[trigger] fs[k]).filepath != file by {
            if fs[k].filepath == file {
                lemma_least_file(fs, file, k);
            }
        }
        assert forall|k: int| 0 <= k < fs.len() implies (#[trigger] r[k]).filepath != file by {
            assert(r[k] == fs[k]);
        }
        let e = Seq::<TraceView>::empty();
        let j = lemma_trace_insert_at(e, line, id);
        assert(trace_insert(e, line, id) =~= seq![TraceView { line, req_ids: seq![id] }]);
        fs.len() as int
    }
}

proof fn lemma_trace_insert_wf(ts: Seq<TraceView>, line: u32, id: Seq<char>)
    requires
        traces_wf(ts),
    ensures
        traces_wf(trace_insert(ts, line, id)),
{
    let r = trace_insert(ts, line, id);
    let j = lemma_trace_insert_at(ts, line, id);
    let ids = if j < ts.len() {
        ts[j].req_ids
    } else {
        Seq::empty()
    };
    if !ids.contains(id) {
        assert forall|a: int, b: int| 0 <= a < b < ids.push(id).len() implies ids.push(id)[a]
            != ids.push(id)[b] by {
            if b == ids.len() {
                assert(ids[a] == ids.push(id)[a]);
            }
        }
    }
    assert forall|a: int, b: int| 0 <= a < b < r.len() implies (#[trigger] r[a]).line != (
    #[trigger] r[b]).line by {
        if a != j && b != j {
        }
    }
}

proof fn lemma_acc_insert_wf(fs: Seq<FileView>, file: Seq<char>, line: u32, id: Seq<char>)
    requires
        acc_wf(fs),
    ensures
        acc_wf(acc_insert(fs, file, line, id)),
{
    let r = acc_insert(fs, file, line, id);
    let i = lemma_acc_insert_at(fs, file, line, id);
    if i < fs.len() {
        lemma_trace_insert_wf(fs[i].traces, line, id);
    } else {
        lemma_trace_insert_wf(Seq::empty(), line, id);
    }
    assert forall|a: int, b: int| 0 <= a < b < r.len() implies (#[trigger] r[a]).filepath != (
    #[trigger] r[b]).filepath by {
        if a != i && b != i {
        }
    }
}

/// Recording a requirement ID twice at one place records it once.
pub proof fn lemma_acc_insert_idempotent(fs: Seq<FileView>, file: Seq<char>, line: u32, id: Seq<char>)
    ensures
        acc_insert(acc_insert(fs, file, line, id), file, line, id) == acc_insert(fs, file, line, id),
{
    let r = acc_insert(fs, file, line, id);
    let i = lemma_acc_insert_at(fs, file, line, id);
    let i2 = lemma_acc_insert_at(r, file, line, id);
    assert(i2 == i) by {
        if i2 < i {
            assert(r[i2].filepath != file);
        }
        if i < i2 {
            assert(r[i].filepath != file);
        }
    }
    let ts = r[i].traces;
    let old_ts = if i < fs.len() {
        fs[i].traces
    } else {
        Seq::empty()
    };
    let j = lemma_trace_insert_at(old_ts, line, id);
    let j2 = lemma_trace_insert_at(ts, line, id);
    assert(j2 == j) by {
        if j2 < j {
            assert(ts[j2].line != line);
        }
        if j < j2 {
            assert(ts[j].line != line);
        }
    }
    let ids = ts[j].req_ids;
    assert(ids.contains(id)) by {
        let base = if j < old_ts.len() {
            old_ts[j].req_ids
        } else {
            Seq::empty()
        };
        if !base.contains(id) {
            assert(ids[base.len() as int] == id);
        }
    }
    assert(trace_insert(ts, line, id) =~= ts);
    assert(acc_insert(r, file, line, id) =~= r);
}

/// Two requirement IDs recorded at one `(file, line)` land in one trace, which holds both.
pub proof fn lemma_two_ids_one_trace(
    fs: Seq<FileView>,
    file: Seq<char>,
    line: u32,
    a: Seq<char>,
    b: Seq<char>,
)
    requires
        acc_wf(fs),
    ensures
        ({
            let r = acc_insert(acc_insert(fs, file, line, a), file, line, b);
            &&& acc_wf(r)
            &&& exists|i: int, j: int|
                file_at(r, file, i) && trace_at(r[i].traces, line, j)
                    && r[i].traces[j].req_ids.contains(a) && r[i].traces[j].req_ids.contains(b)
        }),
{
    let r1 = acc_insert(fs, file, line, a);
    lemma_acc_insert_wf(fs, file, line, a);
    let r = acc_insert(r1, file, line, b);
    lemma_acc_insert_wf(r1, file, line, b);
    let i = lemma_acc_insert_at(fs, file, line, a);
    let i2 = lemma_acc_insert_at(r1, file, line, b);
    assert(i2 == i) by {
        if i2 < i {
            assert(r1[i2].filepath != file);
        }
        if i < i2 {
            assert(r1[i].filepath != file);
        }
    }
    let old_ts = if i < fs.len() {
        fs[i].traces
    } else {
        Seq::empty()
    };
    let ts1 = r1[i].traces;
    let j = lemma_trace_insert_at(old_ts, line, a);
    let j2 = lemma_trace_insert_at(ts1, line, b);
    assert(j2 == j) by {
        if j2 < j {
            assert(ts1[j2].line != line);
        }
        if j < j2 {
            assert(ts1[j].line != line);
        }
    }
    let ids1 = ts1[j].req_ids;
    assert(ids1.contains(a)) by {
        let base = if j < old_ts.len() {
            old_ts[j].req_ids
        } else {
            Seq::empty()
        };
        if !base.contains(a) {
            assert(ids1[base.len() as int] == a);
        }
    }
    let ids = r[i].traces[j].req_ids;
    assert(ids.contains(a)) by {
        let k = choose|k: int| 0 <= k < ids1.len() && ids1[k] == a;
        assert(ids[k] == a);
    }
    assert(ids.contains(b)) by {
        if !ids1.contains(b) {
            assert(ids[ids1.len() as int] == b);
        }
    }
}


/// The coverage that the annotations among the given frames add to `acc`.
pub open spec fn cover_all(acc: Seq<FileView>, frames: Seq<LogFrameView>) -> Seq<FileView>
    decreases frames.len(),
{
    if frames.len() == 0 {
        acc
    } else {
        let prev = cover_all(acc, frames.drop_last());
        match frame_kind(frames.last().data) {
            FrameKindView::Coverage(id, file, line) => acc_insert(prev, file, line, id),
            _ => prev,
        }
    }
}

/// The coverage that the annotations among the given frames record, from nothing.
pub open spec fn coverage_of(frames: Seq<LogFrameView>) -> Seq<FileView> {
    cover_all(Seq::empty(), frames)
}

/// Every frame is a coverage annotation or inert.
pub open spec fn only_coverage(frames: Seq<LogFrameView>) -> bool {
    forall|k: int|
        0 <= k < frames.len() ==> (#[trigger] frame_kind(frames[k].data) is Coverage
            || frame_kind(frames[k].data) is Other)
}

/// The `(file, line, requirement ID)` triples that a coverage record holds.
pub open spec fn triples(fs: Seq<FileView>) -> Set<(Seq<char>, u32, Seq<char>)> {
    Set::new(
        |x: (Seq<char>, u32, Seq<char>)|
            exists|i: int, j: int, k: int|
                0 <= i < fs.len() && 0 <= j < fs[i].traces.len() && 0 <= k
                    < fs[i].traces[j].req_ids.len() && x == (
                    fs[i].filepath,
                    fs[i].traces[j].line,
                    #[trigger] fs[i].traces[j].req_ids[k],
                ),
    )
}

/// The `(file, line, requirement ID)` triples that the annotations among the frames name.
pub open spec fn cov_triples(frames: Seq<LogFrameView>) -> Set<(Seq<char>, u32, Seq<char>)>
    decreases frames.len(),
{
    if frames.len() == 0 {
        Set::empty()
    } else {
        let prev = cov_triples(frames.drop_last());
        match frame_kind(frames.last().data) {
            FrameKindView::Coverage(id, file, line) => prev.insert((file, line, id)),
            _ => prev,
        }
    }
}

/// A marker frame that carries file, line and module path.
pub open spec fn located_marker(f: LogFrameView, running: bool) -> bool {
    &&& parse_marker(f.data) matches Some(m) && m.running == running && m.total is Some
    &&& f.location.file is Some
    &&& f.location.line is Some
    &&& f.location.mod_path is Some
}

/// The test that a located marker frame announces, before it ends.
pub open spec fn announced_test(f: LogFrameView) -> TestView {
    let m = parse_marker(f.data)->0;
    TestView {
        name: qualified_name(f.location.mod_path->0, m.fn_name),
        filepath: f.location.file->0,
        line: f.location.line->0,
        state: if m.running {
            StateView::Failed
        } else {
            StateView::Skipped(None)
        },
        covered: Seq::empty(),
    }
}

pub open spec fn passed(t: TestView, covered: Seq<FileView>) -> TestView {
    TestView { name: t.name, filepath: t.filepath, line: t.line, state: StateView::Passed, covered }
}

proof fn lemma_extract_push(a: Seq<LogFrameView>, f: LogFrameView)
    ensures
        extract(a.push(f)) == match extract(a) {
            Some(s) => step(s, f.location, frame_kind(f.data)),
            None => None,
        },
{
    assert(a.push(f).drop_last() =~= a);
}

/// The frame `all tests passed!` is the closing frame: no marker, no annotation.
pub proof fn lemma_closing_frame(f: LogFrameView)
    requires
        f.data == all_passed_text(),
    ensures
        frame_kind(f.data) == FrameKindView::AllPassed,
{
    reveal_strlit("all tests passed!");
    reveal_strlit("mantra: req-id=");
    let s = f.data;
    let w = "mantra: req-id="@;
    assert(s[0] == 'a');
    assert(parse_marker(s) is None);
    assert forall|i: int| 0 <= i && i + w.len() <= s.len() implies #[trigger] s.subrange(
        i,
        i + w.len(),
    ) != w by {
        assert(s.subrange(i, i + w.len())[0] == s[i]);
        assert(w[0] == 'm');
        assert(i <= 2);
        assert(s[0] == 'a' && s[1] == 'l' && s[2] == 'l');
    }
    assert(!contains_text(s, w));
}

/// Coverage annotations and inert frames while a test is open only add to its coverage.
proof fn lemma_cover_run(p: Seq<LogFrameView>, cs: Seq<LogFrameView>)
    requires
        extract(p) matches Some(s) && s.current is Some,
        only_coverage(cs),
    ensures
        ({
            let s = extract(p)->0;
            extract(p + cs) == Some(
                ExtractView {
                    tests: s.tests,
                    current: s.current,
                    covered: cover_all(s.covered, cs),
                    nr_of_tests: s.nr_of_tests,
                },
            )
        }),
    decreases cs.len(),
{
    if cs.len() == 0 {
        assert(p + cs =~= p);
    } else {
        let d = cs.drop_last();
        assert forall|k: int| 0 <= k < d.len() implies (#[trigger] frame_kind(d[k].data) is Coverage
            || frame_kind(d[k].data) is Other) by {
            assert(d[k] == cs[k]);
        }
        lemma_cover_run(p, d);
        assert(p + cs =~= (p + d).push(cs.last()));
        lemma_extract_push(p + d, cs.last());
        assert(cs.last() == cs[cs.len() - 1]);
    }
}

/// A located running marker ends the open test, if any, as passed and opens its own.
proof fn lemma_running_step(p: Seq<LogFrameView>, f: LogFrameView)
    requires
        extract(p) is Some,
        located_marker(f, true),
    ensures
        extract(p.push(f)) matches Some(s2) && s2.tests == close_open_test(extract(p)->0).tests
            && s2.current == Some(announced_test(f)) && s2.covered == Seq::<FileView>::empty(),
{
    lemma_extract_push(p, f);
    lemma_extract_inv(p);
}

/// The closing frame ends the open test, if any, as passed.
proof fn lemma_closing_step(p: Seq<LogFrameView>, f: LogFrameView)
    requires
        extract(p) is Some,
        f.data == all_passed_text(),
    ensures
        extract(p.push(f)) == Some(close_open_test(extract(p)->0)),
{
    lemma_extract_push(p, f);
    lemma_closing_frame(f);
}

proof fn lemma_triples_insert(fs: Seq<FileView>, file: Seq<char>, line: u32, id: Seq<char>)
    ensures
        triples(acc_insert(fs, file, line, id)) == triples(fs).insert((file, line, id)),
{
    let r = acc_insert(fs, file, line, id);
    let i = lemma_acc_insert_at(fs, file, line, id);
    let old_ts = if i < fs.len() {
        fs[i].traces
    } else {
        Seq::<TraceView>::empty()
    };
    let j = lemma_trace_insert_at(old_ts, line, id);
    let nts = r[i].traces;
    let base = if j < old_ts.len() {
        old_ts[j].req_ids
    } else {
        Seq::<Seq<char>>::empty()
    };
    let ids = nts[j].req_ids;
    let t = (file, line, id);
    assert(ids == ids_insert(base, id));
    assert forall|x: (Seq<char>, u32, Seq<char>)| triples(r).contains(x) implies triples(
        fs,
    ).insert(t).contains(x) by {
        let (a, b, c) = choose|a: int, b: int, c: int|
            0 <= a < r.len() && 0 <= b < r[a].traces.len() && 0 <= c < r[a].traces[b].req_ids.len()
                && x == (r[a].filepath, r[a].traces[b].line, #[trigger] r[a].traces[b].req_ids[c]);
        if a != i {
            assert(r[a] == fs[a]);
            assert(x == (fs[a].filepath, fs[a].traces[b].line, fs[a].traces[b].req_ids[c]));
        } else if b != j {
            assert(nts[b] == old_ts[b]);
            assert(x == (fs[a].filepath, fs[a].traces[b].line, fs[a].traces[b].req_ids[c]));
        } else if c < base.len() {
            assert(ids[c] == base[c]);
            assert(x == (fs[a].filepath, fs[a].traces[b].line, fs[a].traces[b].req_ids[c]));
        } else {
            assert(x == t);
        }
    }
    assert forall|x: (Seq<char>, u32, Seq<char>)| triples(fs).insert(t).contains(x) implies triples(
        r,
    ).contains(x) by {
        if x == t {
            if base.contains(id) {
                let c = choose|c: int| 0 <= c < base.len() && base[c] == id;
                assert(ids[c] == id);
                assert(x == (r[i].filepath, r[i].traces[j].line, r[i].traces[j].req_ids[c]));
            } else {
                assert(ids[base.len() as int] == id);
                assert(x == (r[i].filepath, r[i].traces[j].line, r[i].traces[j].req_ids[
                    base.len() as int
                ]));
            }
        } else {
            let (a, b, c) = choose|a: int, b: int, c: int|
                0 <= a < fs.len() && 0 <= b < fs[a].traces.len() && 0 <= c
                    < fs[a].traces[b].req_ids.len() && x == (
                    fs[a].filepath,
                    fs[a].traces[b].line,
                    #[trigger] fs[a].traces[b].req_ids[c],
                );
            if a != i {
                assert(r[a] == fs[a]);
                assert(x == (r[a].filepath, r[a].traces[b].line, r[a].traces[b].req_ids[c]));
            } else if b != j {
                assert(nts[b] == old_ts[b]);
                assert(x == (r[a].filepath, r[a].traces[b].line, r[a].traces[b].req_ids[c]));
            } else {
                assert(ids[c] == base[c]);
                assert(x == (r[a].filepath, r[a].traces[b].line, r[a].traces[b].req_ids[c]));
            }
        }
    }
    assert(triples(r) =~= triples(fs).insert(t));
}

/// The coverage gathered from annotation frames holds exactly the triples they name.
pub proof fn lemma_coverage_triples(frames: Seq<LogFrameView>)
    ensures
        triples(coverage_of(frames)) == cov_triples(frames),
    decreases frames.len(),
{
    if frames.len() == 0 {
        assert(triples(Seq::<FileView>::empty()) =~= Set::empty());
    } else {
        lemma_coverage_triples(frames.drop_last());
        match frame_kind(frames.last().data) {
            FrameKindView::Coverage(id, file, line) => {
                lemma_triples_insert(coverage_of(frames.drop_last()), file, line, id);
            },
            _ => {},
        }
    }
}

/// A running marker followed by the frame `all tests passed!`, with only coverage
/// annotations and inert frames between, gives exactly one test: passed, holding exactly
/// the coverage that the frames between name.
pub proof fn lemma_single_test_passes(first: LogFrameView, mid: Seq<LogFrameView>, last: LogFrameView)
    requires
        located_marker(first, true),
        only_coverage(mid),
        last.data == all_passed_text(),
    ensures
        extract(seq![first] + mid + seq![last]) matches Some(s) && s.current is None
            && s.tests == seq![passed(announced_test(first), coverage_of(mid))],
        triples(coverage_of(mid)) == cov_triples(mid),
{
    let e = Seq::<LogFrameView>::empty();
    assert(extract(e) == Some(initial_extract()));
    lemma_running_step(e, first);
    assert(e.push(first) =~= seq![first]);
    lemma_cover_run(seq![first], mid);
    lemma_closing_step(seq![first] + mid, last);
    assert(seq![first] + mid + seq![last] =~= (seq![first] + mid).push(last));
    let t0 = announced_test(first);
    assert(seq![passed(t0, coverage_of(mid))] =~= Seq::<TestView>::empty().push(
        passed(t0, coverage_of(mid)),
    ));
    lemma_coverage_triples(mid);
}

/// Running A, annotations, running B, annotations, `all tests passed!`: A ends passed
/// when B starts, holding what was covered before B; B ends passed at the closing frame,
/// holding what was covered after it.
pub proof fn lemma_two_tests_pass(
    a: LogFrameView,
    ca: Seq<LogFrameView>,
    b: LogFrameView,
    cb: Seq<LogFrameView>,
    last: LogFrameView,
)
    requires
        located_marker(a, true),
        located_marker(b, true),
        only_coverage(ca),
        only_coverage(cb),
        last.data == all_passed_text(),
    ensures
        extract(seq![a] + ca + seq![b] + cb + seq![last]) matches Some(s) && s.current is None
            && s.tests == seq![
            passed(announced_test(a), coverage_of(ca)),
            passed(announced_test(b), coverage_of(cb)),
        ],
        triples(coverage_of(ca)) == cov_triples(ca),
        triples(coverage_of(cb)) == cov_triples(cb),
{
    lemma_coverage_triples(ca);
    lemma_coverage_triples(cb);
    let e = Seq::<LogFrameView>::empty();
    assert(extract(e) == Some(initial_extract()));
    lemma_running_step(e, a);
    assert(e.push(a) =~= seq![a]);
    lemma_cover_run(seq![a], ca);
    let p1 = seq![a] + ca;
    lemma_running_step(p1, b);
    assert(p1.push(b) =~= seq![a] + ca + seq![b]);
    let p2 = seq![a] + ca + seq![b];
    lemma_cover_run(p2, cb);
    let p3 = p2 + cb;
    lemma_closing_step(p3, last);
    assert(seq![a] + ca + seq![b] + cb + seq![last] =~= p3.push(last));
    let ta = passed(announced_test(a), coverage_of(ca));
    let tb = passed(announced_test(b), coverage_of(cb));
    assert(Seq::<TestView>::empty().push(ta).push(tb) =~= seq![ta, tb]);
}

/// Equal states stay equal under the same further frames.
proof fn lemma_extract_congruent(a: Seq<LogFrameView>, b: Seq<LogFrameView>, q: Seq<LogFrameView>)
    requires
        extract(a) == extract(b),
    ensures
        extract(a + q) == extract(b + q),
    decreases q.len(),
{
    if q.len() == 0 {
        assert(a + q =~= a);
        assert(b + q =~= b);
    } else {
        lemma_extract_congruent(a, b, q.drop_last());
        assert(a + q =~= (a + q.drop_last()).push(q.last()));
        assert(b + q =~= (b + q.drop_last()).push(q.last()));
        lemma_extract_push(a + q.drop_last(), q.last());
        lemma_extract_push(b + q.drop_last(), q.last());
    }
}

/// A coverage annotation repeated right after itself changes nothing: the whole result is
/// that of the frames with the annotation once.
pub proof fn lemma_duplicate_annotation(p: Seq<LogFrameView>, c: LogFrameView, q: Seq<LogFrameView>)
    requires
        frame_kind(c.data) is Coverage,
    ensures
        extract(p + seq![c, c] + q) == extract(p + seq![c] + q),
{
    lemma_extract_push(p, c);
    lemma_extract_push(p.push(c), c);
    if let Some(s) = extract(p) {
        if let FrameKindView::Coverage(id, file, line) = frame_kind(c.data) {
            lemma_acc_insert_idempotent(s.covered, file, line, id);
        }
    }
    assert(extract(p.push(c).push(c)) == extract(p.push(c)));
    assert(p + seq![c, c] + q =~= p.push(c).push(c) + q);
    assert(p + seq![c] + q =~= p.push(c) + q);
    lemma_extract_congruent(p.push(c).push(c), p.push(c), q);
}

/// Coverage annotations while no test is open leave the state as it was.
proof fn lemma_no_test_run(p: Seq<LogFrameView>, cs: Seq<LogFrameView>)
    requires
        extract(p) is None || extract(p)->0.current is None,
        only_coverage(cs),
    ensures
        extract(p + cs) == extract(p),
    decreases cs.len(),
{
    if cs.len() == 0 {
        assert(p + cs =~= p);
    } else {
        let d = cs.drop_last();
        assert forall|k: int| 0 <= k < d.len() implies (#[trigger] frame_kind(d[k].data) is Coverage
            || frame_kind(d[k].data) is Other) by {
            assert(d[k] == cs[k]);
        }
        lemma_no_test_run(p, d);
        assert(p + cs =~= (p + d).push(cs.last()));
        lemma_extract_push(p + d, cs.last());
        assert(cs.last() == cs[cs.len() - 1]);
    }
}

/// An ignoring marker opens no test: coverage annotations right after it are dropped, and
/// the whole result is that of the frames without them.
pub proof fn lemma_ignored_opens_nothing(
    p: Seq<LogFrameView>,
    i: LogFrameView,
    cs: Seq<LogFrameView>,
    q: Seq<LogFrameView>,
)
    requires
        located_marker(i, false),
        only_coverage(cs),
    ensures
        extract(p + seq![i] + cs + q) == extract(p + seq![i] + q),
{
    lemma_extract_push(p, i);
    lemma_no_test_run(p.push(i), cs);
    assert(p + seq![i] + cs + q =~= (p.push(i) + cs) + q);
    assert(p + seq![i] + q =~= p.push(i) + q);
    lemma_extract_congruent(p.push(i) + cs, p.push(i), q);
}

/// Tests once ended stay, in place, whatever frames follow.
proof fn lemma_tests_kept(p: Seq<LogFrameView>, q: Seq<LogFrameView>)
    requires
        extract(p) is Some,
        extract(p + q) is Some,
    ensures
        extract(p + q)->0.tests.len() >= extract(p)->0.tests.len(),
        forall|k: int|
            0 <= k < extract(p)->0.tests.len() ==> #[trigger] extract(p + q)->0.tests[k]
                == extract(p)->0.tests[k],
    decreases q.len(),
{
    if q.len() == 0 {
        assert(p + q =~= p);
    } else {
        assert(p + q =~= (p + q.drop_last()).push(q.last()));
        lemma_extract_push(p + q.drop_last(), q.last());
        lemma_tests_kept(p, q.drop_last());
        let s1 = extract(p + q.drop_last())->0;
        let s2 = extract(p + q)->0;
        assert(s2.tests.len() >= s1.tests.len());
        assert forall|k: int| 0 <= k < s1.tests.len() implies #[trigger] s2.tests[k] == s1.tests[k] by {
        }
    }
}

/// A located ignoring marker puts a skipped test without coverage among the run's tests.
pub proof fn lemma_ignored_test_reported(p: Seq<LogFrameView>, i: LogFrameView, q: Seq<LogFrameView>)
    requires
        located_marker(i, false),
        extract(p + seq![i] + q) is Some,
    ensures
        finished_tests(extract(p + seq![i] + q)->0).contains(announced_test(i)),
        announced_test(i).state == StateView::Skipped(None),
        announced_test(i).covered == Seq::<FileView>::empty(),
{
    assert(p + seq![i] + q =~= p.push(i) + q);
    lemma_extract_push(p, i);
    if extract(p) is None {
        assert((p + seq![i] + q).take(p.len() as int) =~= p);
        lemma_extract_refused_stays(p + seq![i] + q, p.len() as int);
    } else {
        let s1 = extract(p.push(i))->0;
        let k = s1.tests.len() - 1;
        assert(s1.tests[k] == announced_test(i));
        lemma_tests_kept(p.push(i), q);
        let s = extract(p + seq![i] + q)->0;
        assert(s.tests[k] == announced_test(i));
        assert(finished_tests(s)[k] == announced_test(i));
    }
}

/// A running marker, two annotations of different requirement IDs at one `(file, line)`,
/// then `all tests passed!`: one passed test with one file, one trace, both IDs.
pub proof fn lemma_two_ids_one_line_run(
    r: LogFrameView,
    c1: LogFrameView,
    c2: LogFrameView,
    last: LogFrameView,
    file: Seq<char>,
    line: u32,
    id1: Seq<char>,
    id2: Seq<char>,
)
    requires
        located_marker(r, true),
        frame_kind(c1.data) == FrameKindView::Coverage(id1, file, line),
        frame_kind(c2.data) == FrameKindView::Coverage(id2, file, line),
        id1 != id2,
        last.data == all_passed_text(),
    ensures
        extract(seq![r, c1, c2, last]) matches Some(s) && s.current is None && s.tests == seq![
            passed(
                announced_test(r),
                seq![FileView { filepath: file, traces: seq![TraceView { line, req_ids: seq![id1, id2] }] }],
            ),
        ],
{
    let mid = seq![c1, c2];
    assert(only_coverage(mid));
    lemma_single_test_passes(r, mid, last);
    assert(seq![r] + mid + seq![last] =~= seq![r, c1, c2, last]);
    assert(mid.drop_last() =~= seq![c1]);
    assert(seq![c1].drop_last() =~= Seq::<LogFrameView>::empty());
    let e = Seq::<FileView>::empty();
    let f1 = acc_insert(e, file, line, id1);
    let i1 = lemma_acc_insert_at(e, file, line, id1);
    let j1 = lemma_trace_insert_at(Seq::<TraceView>::empty(), line, id1);
    assert(f1 =~= seq![FileView { filepath: file, traces: seq![TraceView { line, req_ids: seq![id1] }] }]) by {
        assert(f1[0].traces =~= seq![TraceView { line, req_ids: seq![id1] }]) by {
            assert(ids_insert(Seq::<Seq<char>>::empty(), id1) =~= seq![id1]);
        }
    }
    assert(cover_all(e, Seq::<LogFrameView>::empty()) == e);
    assert(seq![c1].last() == c1);
    assert(cover_all(e, seq![c1]) == f1);
    assert(mid.last() == c2);
    assert(coverage_of(mid) == acc_insert(f1, file, line, id2));
    let i2 = lemma_acc_insert_at(f1, file, line, id2);
    let j2 = lemma_trace_insert_at(f1[0].traces, line, id2);
    let f2 = acc_insert(f1, file, line, id2);
    assert(!seq![id1].contains(id2)) by {
        if seq![id1].contains(id2) {
            let k = choose|k: int| 0 <= k < 1 && seq![id1][k] == id2;
        }
    }
    assert(ids_insert(seq![id1], id2) =~= seq![id1, id2]);
    assert(f2[0].traces =~= seq![TraceView { line, req_ids: seq![id1, id2] }]);
    assert(f2 =~= seq![FileView { filepath: file, traces: seq![TraceView { line, req_ids: seq![id1, id2] }] }]);
}

/// An ignoring marker, with no test open, adds one skipped test without coverage and
/// leaves no test open and the gathered coverage as it was.
pub proof fn lemma_ignored_test(s: ExtractView, f: LogFrameView)
    requires
        s.current is None,
        located_marker(f, false),
    ensures
        step(s, f.location, frame_kind(f.data)) matches Some(s2) && s2.current is None
            && s2.covered == s.covered && s2.tests == s.tests.push(announced_test(f))
            && announced_test(f).state == StateView::Skipped(None) && announced_test(f).covered
            == Seq::<FileView>::empty(),
{
}

/// A marker frame without file, line or module path makes the whole extraction fail.
pub proof fn lemma_marker_without_location(frames: Seq<LogFrameView>, k: int)
    requires
        0 <= k < frames.len(),
        parse_marker(frames[k].data) is Some,
        frames[k].location.file is None || frames[k].location.line is None
            || frames[k].location.mod_path is None,
    ensures
        extract(frames) is None,
{
    assert(frames.take(k + 1) =~= frames.take(k).push(frames[k]));
    lemma_extract_push(frames.take(k), frames[k]);
    lemma_extract_refused_stays(frames, k + 1);
}

/// A coverage annotation while no test is open changes nothing.
pub proof fn lemma_coverage_without_test(s: ExtractView, f: LogFrameView)
    requires
        s.current is None,
        frame_kind(f.data) is Coverage,
    ensures
        step(s, f.location, frame_kind(f.data)) == Some(s),
{
}


/// What holds of every state an extraction reaches: coverage is only gathered while a
/// test is open, and every coverage record, gathered or attached to an ended test, has
/// one entry per file, one trace per line and a non-empty set of requirement IDs.
pub open spec fn extract_inv(s: ExtractView) -> bool {
    &&& s.current is None ==> s.covered.len() == 0
    &&& acc_wf(s.covered)
    &&& forall|i: int| 0 <= i < s.tests.len() ==> acc_wf(#[trigger] s.tests[i].covered)
}

proof fn lemma_step_inv(s: ExtractView, loc: LocationView, kind: FrameKindView)
    requires
        extract_inv(s),
    ensures
        step(s, loc, kind) matches Some(s2) ==> extract_inv(s2),
{
    let c = close_open_test(s);
    assert(acc_wf(Seq::<FileView>::empty()));
    assert(extract_inv(c)) by {
        if s.current is Some {
            assert forall|i: int| 0 <= i < c.tests.len() implies acc_wf(#[trigger] c.tests[i].covered) by {
                if i < s.tests.len() {
                    assert(c.tests[i] == s.tests[i]);
                }
            }
        }
    }
    match kind {
        FrameKindView::Marker(m) => {
            if m.running {
            } else {
                let t = TestView {
                    name: qualified_name(loc.mod_path->0, m.fn_name),
                    filepath: loc.file->0,
                    line: loc.line->0,
                    state: StateView::Skipped(None),
                    covered: Seq::empty(),
                };
                assert forall|i: int| 0 <= i < c.tests.push(t).len() implies acc_wf(
                    #[trigger] c.tests.push(t)[i].covered,
                ) by {
                    if i < c.tests.len() {
                        assert(c.tests.push(t)[i] == c.tests[i]);
                    }
                }
            }
        },
        FrameKindView::Coverage(id, file, line) => {
            if s.current is Some {
                lemma_acc_insert_wf(s.covered, file, line, id);
            }
        },
        _ => {},
    }
}

/// Every state that an extraction reaches keeps `extract_inv`.
pub proof fn lemma_extract_inv(frames: Seq<LogFrameView>)
    ensures
        extract(frames) matches Some(s) ==> extract_inv(s),
    decreases frames.len(),
{
    if frames.len() == 0 {
        assert(acc_wf(Seq::<FileView>::empty()));
    } else {
        lemma_extract_inv(frames.drop_last());
        if let Some(s) = extract(frames.drop_last()) {
            lemma_step_inv(s, frames.last().location, frame_kind(frames.last().data));
        }
    }
}

} // verus!
