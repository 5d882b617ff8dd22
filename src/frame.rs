//! Decoded log frames: the record type, its source location, and the helpers that
//! build a frame from what the decoder reports.
use vstd::prelude::*;

use crate::text::{chars_of, join_colons, lemma_join_split, split_colons, split_double_colon, string_of};

verus! {

/// Severity of a log frame.
#[derive(Clone, Copy, Debug, PartialEq, Eq, Structural)]
pub enum Severity {
    Trace,
    Debug,
    Info,
    Warn,
    Error,
}

/// The decoder's severity, `defmt_parser::Level`: a public enum of five fieldless
/// variants, declared with its variants visible so that it can be matched on.
#[verifier::external_type_specification]
pub struct ExDefmtLevel(defmt_parser::Level);

/// Maps the decoder's severity onto the frame's severity, variant for variant.
pub fn to_json_level(level: defmt_parser::Level) -> (r: Severity)
    ensures
        level is Trace ==> r is Trace,
        level is Debug ==> r is Debug,
        level is Info ==> r is Info,
        level is Warn ==> r is Warn,
        level is Error ==> r is Error,
{
    match level {
        defmt_parser::Level::Trace => Severity::Trace,
        defmt_parser::Level::Debug => Severity::Debug,
        defmt_parser::Level::Info => Severity::Info,
        defmt_parser::Level::Warn => Severity::Warn,
        defmt_parser::Level::Error => Severity::Error,
    }
}


/// Fully qualified path of the function that emitted a frame.
#[derive(Clone, Debug)]
pub struct ModulePath {
    pub crate_name: String,
    pub modules: Vec<String>,
    pub function: String,
}

/// Where in the target's source a frame was emitted, as far as it is known.
#[derive(Clone, Debug)]
pub struct Location {
    pub file: Option<String>,
    pub line: Option<u32>,
    pub mod_path: Option<ModulePath>,
}

/// One decoded log frame, stamped with the host time at which it was received.
#[derive(Clone, Debug)]
pub struct LogFrame {
    pub data: String,
    pub host_timestamp: i64,
    pub level: Option<Severity>,
    pub location: Location,
    pub target_timestamp: String,
}

/// A location entry of the format table: file, line and module of a log statement.
#[derive(Clone, Debug)]
pub struct SourceLocation {
    pub file: String,
    pub line: u64,
    pub module: String,
}

pub struct ModulePathView {
    pub crate_name: Seq<char>,
    pub modules: Seq<Seq<char>>,
    pub function: Seq<char>,
}

pub struct LocationView {
    pub file: Option<Seq<char>>,
    pub line: Option<u32>,
    pub mod_path: Option<ModulePathView>,
}

pub struct LogFrameView {
    pub data: Seq<char>,
    pub host_timestamp: i64,
    pub level: Option<Severity>,
    pub location: LocationView,
    pub target_timestamp: Seq<char>,
}

pub open spec fn strings_view(v: Seq<String>) -> Seq<Seq<char>> {
    v.map_values(|s: String| s@)
}

pub open spec fn opt_string_view(o: Option<String>) -> Option<Seq<char>> {
    match o {
        Some(s) => Some(s@),
        None => None,
    }
}

impl View for ModulePath {
    type V = ModulePathView;

    open spec fn view(&self) -> ModulePathView {
        ModulePathView {
            crate_name: self.crate_name@,
            modules: strings_view(self.modules@),
            function: self.function@,
        }
    }
}

impl View for Location {
    type V = LocationView;

    open spec fn view(&self) -> LocationView {
        LocationView {
            file: opt_string_view(self.file),
            line: self.line,
            mod_path: match self.mod_path {
                Some(m) => Some(m@),
                None => None,
            },
        }
    }
}

impl View for LogFrame {
    type V = LogFrameView;

    open spec fn view(&self) -> LogFrameView {
        LogFrameView {
            data: self.data@,
            host_timestamp: self.host_timestamp,
            level: self.level,
            location: self.location@,
            target_timestamp: self.target_timestamp@,
        }
    }
}

/// The module path named by `crate::module::...::function`: at least two pieces, the
/// first the crate, the last the function, those between the modules.
pub open spec fn path_of_module(s: Seq<char>) -> Option<ModulePathView> {
    let parts = split_colons(s);
    if parts.len() < 2 {
        None
    } else {
        Some(
            ModulePathView {
                crate_name: parts[0],
                modules: parts.subrange(1, parts.len() - 1),
                function: parts[parts.len() - 1],
            },
        )
    }
}

/// `::`-prefixed modules, in order.
pub open spec fn modules_suffix(ms: Seq<Seq<char>>) -> Seq<char>
    decreases ms.len(),
{
    if ms.len() == 0 {
        Seq::empty()
    } else {
        modules_suffix(ms.drop_last()) + "::"@ + ms.last()
    }
}

proof fn lemma_join_as_suffix(q: Seq<Seq<char>>)
    requires
        q.len() >= 1,
    ensures
        join_colons(q) == q[0] + modules_suffix(q.subrange(1, q.len() as int)),
    decreases q.len(),
{
    let n = q.len() as int;
    if n == 1 {
        assert(q.subrange(1, 1) =~= Seq::<Seq<char>>::empty());
        assert(q[0] + Seq::<char>::empty() =~= q[0]);
    } else {
        lemma_join_as_suffix(q.drop_last());
        assert(q.drop_last().subrange(1, n - 1) =~= q.subrange(1, n).drop_last());
        assert(q.subrange(1, n).last() == q.last());
        assert(q.drop_last()[0] == q[0]);
    }
}

/// A module path read from a `crate::module::function` string gives the string back
/// when its pieces are joined with `::` again.
pub proof fn lemma_module_path_round_trip(s: Seq<char>)
    requires
        path_of_module(s) is Some,
    ensures
        ({
            let mp = path_of_module(s)->0;
            mp.crate_name + modules_suffix(mp.modules) + "::"@ + mp.function == s
        }),
{
    let ps = split_colons(s);
    let n = ps.len() as int;
    lemma_join_split(s);
    lemma_join_as_suffix(ps.drop_last());
    assert(ps.drop_last().subrange(1, n - 1) =~= ps.subrange(1, n - 1));
    assert(ps.drop_last()[0] == ps[0]);
}

/// Splits a `::`-separated path into crate, modules and function.
pub fn create_module_path(mod_path: Option<&str>) -> (r: Option<ModulePath>)
    ensures
        mod_path is None ==> r is None,
        mod_path matches Some(s) ==> match r {
            Some(m) => path_of_module(s@) == Some(m@),
            None => path_of_module(s@) is None,
        },
{
    let s = match mod_path {
        Some(s) => s,
        None => {
            return None;
        },
    };
    let chars = chars_of(s);
    let parts = split_double_colon(&chars);
    let ghost pv = parts@.map_values(|p: Vec<char>| p@);
    let n = parts.len();
    if n < 2 {
        return None;
    }
    let crate_name = string_of(&parts[0]);
    let function = string_of(&parts[n - 1]);
    let mut modules: Vec<String> = Vec::new();
    let mut k: usize = 1;
    while k < n - 1
        invariant
            1 <= k <= n - 1,
            n == parts.len(),
            pv == parts@.map_values(|p: Vec<char>| p@),
            strings_view(modules@) == pv.subrange(1, k as int),
        decreases n - 1 - k,
    {
        let m = string_of(&parts[k]);
        let ghost before = strings_view(modules@);
        modules.push(m);
        proof {
            assert(strings_view(modules@) =~= before.push(m@));
            assert(pv.subrange(1, k + 1) =~= pv.subrange(1, k as int).push(pv[k as int]));
        }
        k = k + 1;
    }
    let r = ModulePath { crate_name, modules, function };
    proof {
        assert(r@.modules =~= pv.subrange(1, pv.len() - 1));
    }
    Some(r)
}


/// Relies on `mantra_lang_tracing::path::make_relative`: `file` relative to `root`, where
/// `root` is a prefix of it; how paths split into components depends on the host.
#[verifier::external_body]
fn make_relative(file: &str, root: &str) -> (r: Option<String>) {
    mantra_lang_tracing::path::make_relative(std::path::Path::new(file), std::path::Path::new(root)).map(
        |p| p.display().to_string(),
    )
}

/// File, line and module of a frame, as far as they are known.
pub struct LocationInfo {
    pub file: Option<String>,
    pub line: Option<u32>,
    pub mod_path: Option<String>,
}

/// The location of a frame from its table entry, given the entry's file made relative
/// to the workspace root where that was possible: the relative file where there is one,
/// else the file as given; the line cut to 32 bits.
pub fn location_info_with(loc: Option<&SourceLocation>, relative: Option<String>) -> (r: LocationInfo)
    ensures
        match loc {
            None => r.file is None && r.line is None && r.mod_path is None,
            Some(l) => {
                &&& opt_string_view(r.file) == Some(
                    match relative {
                        Some(p) => p@,
                        None => l.file@,
                    },
                )
                &&& r.line == Some((l.line % 0x1_0000_0000) as u32)
                &&& opt_string_view(r.mod_path) == Some(l.module@)
            },
        },
{
    match loc {
        None => LocationInfo { file: None, line: None, mod_path: None },
        Some(l) => {
            let file = match relative {
                Some(p) => p,
                None => l.file.clone(),
            };
            let line = (l.line % 0x1_0000_0000) as u32;
            LocationInfo { file: Some(file), line: Some(line), mod_path: Some(l.module.clone()) }
        },
    }
}

/// The location of a frame from its table entry, with the file made relative to the
/// workspace root where possible.
pub fn location_info(workspace_root: &str, loc: Option<&SourceLocation>) -> (r: LocationInfo)
    ensures
        match loc {
            None => r.file is None && r.line is None && r.mod_path is None,
            Some(l) => r.file is Some && r.line == Some((l.line % 0x1_0000_0000) as u32)
                && opt_string_view(r.mod_path) == Some(l.module@),
        },
{
    let relative = match loc {
        Some(l) => make_relative(l.file.as_str(), workspace_root),
        None => None,
    };
    location_info_with(loc, relative)
}

/// Relies on `time::OffsetDateTime::now_utc` and `unix_timestamp_nanos`: the current time
/// in nanoseconds since the Unix epoch.
#[verifier::external_body]
fn now_unix_nanos() -> (r: i128) {
    time::OffsetDateTime::now_utc().unix_timestamp_nanos()
}

/// `t` limited to the range of `i64`.
pub open spec fn clamp_i64(t: i128) -> i64 {
    if t > i64::MAX {
        i64::MAX
    } else if t < i64::MIN {
        i64::MIN
    } else {
        t as i64
    }
}

pub open spec fn level_of(level: Option<defmt_parser::Level>) -> Option<Severity> {
    match level {
        None => None,
        Some(l) => Some(
            match l {
                defmt_parser::Level::Trace => Severity::Trace,
                defmt_parser::Level::Debug => Severity::Debug,
                defmt_parser::Level::Info => Severity::Info,
                defmt_parser::Level::Warn => Severity::Warn,
                defmt_parser::Level::Error => Severity::Error,
            },
        ),
    }
}

/// A frame from the decoder's message, severity, location info and target timestamp,
/// received at `now` (nanoseconds since the Unix epoch).
pub fn frame_from_parts(
    message: String,
    level: Option<defmt_parser::Level>,
    info: LocationInfo,
    target_timestamp: Option<String>,
    now: i128,
) -> (r: LogFrame)
    ensures
        r.data@ == message@,
        r.host_timestamp == clamp_i64(now),
        r.level == level_of(level),
        r.location.file == info.file,
        r.location.line == info.line,
        match info.mod_path {
            None => r.location.mod_path is None,
            Some(m) => match r.location.mod_path {
                Some(mp) => path_of_module(m@) == Some(mp@),
                None => path_of_module(m@) is None,
            },
        },
        r.target_timestamp@ == match target_timestamp {
            Some(t) => t@,
            None => Seq::empty(),
        },
{
    let host_timestamp = if now > i64::MAX as i128 {
        i64::MAX
    } else if now < i64::MIN as i128 {
        i64::MIN
    } else {
        now as i64
    };
    let level = match level {
        Some(l) => Some(to_json_level(l)),
        None => None,
    };
    let mod_path = match &info.mod_path {
        Some(m) => create_module_path(Some(m.as_str())),
        None => None,
    };
    let target_timestamp = match target_timestamp {
        Some(t) => t,
        None => String::new(),
    };
    LogFrame {
        data: message,
        host_timestamp,
        level,
        location: Location { file: info.file, line: info.line, mod_path },
        target_timestamp,
    }
}

/// A frame from what the decoder reports, stamped with the current host time.
pub fn create_json_frame(
    workspace_root: &str,
    message: String,
    level: Option<defmt_parser::Level>,
    loc: Option<&SourceLocation>,
    target_timestamp: Option<String>,
) -> (r: LogFrame)
    ensures
        r.data@ == message@,
        r.level == level_of(level),
        loc is None ==> r.location.file is None && r.location.line is None
            && r.location.mod_path is None,
        loc matches Some(l) ==> r.location.file is Some && r.location.line == Some(
            (l.line % 0x1_0000_0000) as u32,
        ) && match r.location.mod_path {
            Some(mp) => path_of_module(l.module@) == Some(mp@),
            None => path_of_module(l.module@) is None,
        },
        r.target_timestamp@ == match target_timestamp {
            Some(t) => t@,
            None => Seq::empty(),
        },
{
    let info = location_info(workspace_root, loc);
    let now = now_unix_nanos();
    frame_from_parts(message, level, info, target_timestamp, now)
}

} // verus!
