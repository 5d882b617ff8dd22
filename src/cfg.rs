//! Configuration values, the lookup of the log transport's control block in the
//! target binary, and the debugger script that loads and runs the binary.
use vstd::prelude::*;

use object::Object as _;
use object::ObjectSymbol as _;

use crate::marker::{starts_at, starts_with_at};
use crate::text::{chars_of, digits_in, format_u64, push_all, same_chars, string_of};

verus! {

/// Command-line configuration.
pub struct CliConfig {
    pub verbose: bool,
    pub cmd: Cmd,
}

pub enum Cmd {
    Run(RunCmdConfig),
    Collect(CollectCmdConfig),
}

/// Options of a run; paths are `/`-separated.
pub struct RunCmdConfig {
    pub runner_cfg: Option<String>,
    pub segger_gdb: Option<bool>,
    pub run_name: Option<String>,
    pub output_dir: Option<String>,
    pub data_filepath: Option<String>,
    pub binary: String,
}

/// Options of a collection of coverage files.
pub struct CollectCmdConfig {
    pub output: Option<String>,
}

/// An external command: program name and arguments.
#[derive(Clone, Debug)]
pub struct Command {
    pub name: String,
    pub args: Vec<String>,
}

/// Format of an external coverage report, carried through unread.
#[verifier::external_type_specification]
#[verifier::external_body]
pub struct ExCoverageFormat(covcon::format::CoverageFormat);

/// An external coverage report to attach to a run.
pub struct ExternCoverageConfig {
    pub format: covcon::format::CoverageFormat,
    pub filepath: String,
}

/// The runner configuration; paths are `/`-separated.
pub struct RunnerConfig {
    pub load: Option<String>,
    pub pre_exit: Option<String>,
    pub openocd_cfg: Option<String>,
    pub gdb_connection: Option<String>,
    pub gdb_logfile: Option<String>,
    pub pre_runner: Option<Command>,
    pub pre_runner_windows: Option<Command>,
    pub post_runner: Option<Command>,
    pub post_runner_windows: Option<Command>,
    pub rtt_port: Option<u16>,
    pub windows_sleep: Option<bool>,
    pub extern_coverage: Option<ExternCoverageConfig>,
    pub segger_gdb: bool,
    pub data_filepath: Option<String>,
}

/// The configuration of a run, with the project's directories (`/`-separated).
pub struct ResolvedConfig {
    pub runner_cfg: RunnerConfig,
    pub verbose: bool,
    pub workspace_dir: String,
    pub embedded_dir: String,
}

#[derive(Debug)]
pub enum CfgError {
    FindingRttBlock(String),
    BuildingTemplateContext(String),
    ResolvingLoad(String),
    ResolvingPreExit(String),
}

/// Address and size of a symbol.
#[derive(Clone, Copy, Debug, PartialEq, Eq, Structural)]
pub struct Symbol {
    pub address: u64,
    pub size: u64,
}

/// An entry of an object file's symbol table; `name` is `None` where it is not UTF-8.
pub struct SymbolEntry {
    pub name: Option<String>,
    pub address: u64,
    pub size: u64,
}

pub open spec fn object_symbols_view(v: Seq<SymbolEntry>) -> Seq<(Option<Seq<char>>, u64, u64)> {
    v.map_values(
        |s: SymbolEntry|
            (
                match s.name {
                    Some(n) => Some(n@),
                    None => None,
                },
                s.address,
                s.size,
            ),
    )
}

/// The symbol table of an object file, or `None` where the bytes are no object file.
pub uninterp spec fn object_symbols(data: Seq<u8>) -> Option<Seq<(Option<Seq<char>>, u64, u64)>>;

/// Relies on `object::File::parse` and `Object::symbols`: the parsed file's symbol table
/// in table order, with each symbol's name (`ObjectSymbol::name` fails on names that are
/// not UTF-8), address and size; the result depends on the bytes alone.
#[verifier::external_body]
fn read_object_symbols(data: &[u8]) -> (r: Result<Vec<SymbolEntry>, String>)
    ensures
        match r {
            Ok(v) => object_symbols(data@) == Some(object_symbols_view(v@)),
            Err(_) => object_symbols(data@) is None,
        },
{
    let file = object::File::parse(data).map_err(|e| e.to_string())?;
    Ok(file.symbols().map(|s| SymbolEntry {
        name: s.name().ok().map(|n| n.to_string()),
        address: s.address(),
        size: s.size(),
    }).collect())
}

/// Index of the first entry named `name`, or -1.
pub open spec fn first_named(ss: Seq<(Option<Seq<char>>, u64, u64)>, name: Seq<char>) -> int
    decreases ss.len(),
{
    if ss.len() == 0 {
        -1
    } else if first_named(ss.drop_last(), name) >= 0 {
        first_named(ss.drop_last(), name)
    } else if ss.last().0 == Some(name) {
        ss.len() - 1
    } else {
        -1
    }
}

proof fn lemma_first_named_prefix(ss: Seq<(Option<Seq<char>>, u64, u64)>, name: Seq<char>, k: int)
    requires
        0 <= k <= ss.len(),
        first_named(ss.take(k), name) >= 0,
    ensures
        first_named(ss, name) == first_named(ss.take(k), name),
    decreases ss.len() - k,
{
    if k < ss.len() {
        assert(ss.take(k + 1).drop_last() =~= ss.take(k));
        lemma_first_named_prefix(ss, name, k + 1);
    } else {
        assert(ss.take(k) =~= ss);
    }
}

/// The first symbol named `name`.
pub fn find_symbol(symbols: &Vec<SymbolEntry>, name: &str) -> (r: Option<Symbol>)
    ensures
        ({
            let ss = object_symbols_view(symbols@);
            let i = first_named(ss, name@);
            match r {
                Some(s) => i >= 0 && s.address == ss[i].1 && s.size == ss[i].2,
                None => i == -1,
            }
        }),
{
    let ghost ss = object_symbols_view(symbols@);
    let mut k: usize = 0;
    proof {
        assert(ss.take(0) =~= Seq::<(Option<Seq<char>>, u64, u64)>::empty());
    }
    while k < symbols.len()
        invariant
            k <= symbols.len(),
            ss == object_symbols_view(symbols@),
            first_named(ss.take(k as int), name@) == -1,
        decreases symbols.len() - k,
    {
        let matches = match &symbols[k].name {
            Some(n) => same_chars(&chars_of(n.as_str()), &chars_of(name)),
            None => false,
        };
        proof {
            assert(ss[k as int] == ss.take(k + 1).last());
        }
        proof {
            assert(ss.take(k + 1).drop_last() =~= ss.take(k as int));
        }
        if matches {
            proof {
                assert(first_named(ss.take(k + 1), name@) == k);
                lemma_first_named_prefix(ss, name@, k + 1);
            }
            return Some(Symbol { address: symbols[k].address, size: symbols[k].size });
        }
        k = k + 1;
    }
    proof {
        assert(ss.take(symbols.len() as int) =~= ss);
    }
    None
}

/// The control block of the log transport in an object file: the first symbol named
/// `_SEGGER_RTT`.
pub fn find_rtt_block(data: &[u8]) -> (r: Result<Symbol, CfgError>)
    ensures
        match object_symbols(data@) {
            None => r matches Err(CfgError::FindingRttBlock(_)),
            Some(ss) => {
                let i = first_named(ss, "_SEGGER_RTT"@);
                match r {
                    Ok(s) => i >= 0 && s.address == ss[i].1 && s.size == ss[i].2,
                    Err(e) => i == -1 && e is FindingRttBlock,
                }
            },
        },
{
    let symbols = match read_object_symbols(data) {
        Ok(v) => v,
        Err(_) => {
            return Err(CfgError::FindingRttBlock(string_of(&chars_of("could not parse the binary file"))));
        },
    };
    match find_symbol(&symbols, "_SEGGER_RTT") {
        Some(s) => Ok(s),
        None => Err(CfgError::FindingRttBlock(string_of(&chars_of("no _SEGGER_RTT symbol in the binary")))),
    }
}


/// The values that `load` and `pre_exit` templates may name: the binary's directory, its
/// path without extension, and its path, all `/`-separated.
pub struct TemplateVars {
    pub binary_path: String,
    pub binary_filepath_noextension: String,
    pub binary_filepath: String,
}

/// Whitespace that tera allows inside a tag.
pub open spec fn is_tag_space(c: char) -> bool {
    c == ' ' || c == '\t' || c == '\r' || c == '\n'
}

/// End of the run of tag whitespace that starts at `i`.
pub open spec fn space_end(s: Seq<char>, i: int) -> int
    decreases s.len() - i,
{
    if 0 <= i < s.len() && is_tag_space(s[i]) {
        space_end(s, i + 1)
    } else {
        i
    }
}

/// `name` stands at `k`, followed by optional whitespace and `}}`.
pub open spec fn name_closes(s: Seq<char>, k: int, name: Seq<char>) -> bool {
    let m = space_end(s, k + name.len());
    starts_at(s, k, name) && m + 1 < s.len() && s[m] == '}' && s[m + 1] == '}'
}

/// At `i` stands `{{`, a template variable between optional whitespace, and `}}`.
pub open spec fn substitution_at(s: Seq<char>, i: int) -> bool {
    let k = space_end(s, i + 2);
    name_closes(s, k, "binary_path"@) || name_closes(s, k, "binary_filepath_noextension"@)
        || name_closes(s, k, "binary_filepath"@)
}

/// A template that only substitutes the template variables: every `{{` opens a plain
/// `{{ variable }}`, and there is no `{%` tag and no `{#` comment. Rendering such a
/// template involves no expression, filter or function of tera.
pub open spec fn plain_template(s: Seq<char>) -> bool {
    forall|i: int|
        0 <= i < s.len() - 1 && #[trigger] s[i] == '{' ==> s[i + 1] != '%' && s[i + 1] != '#'
            && (s[i + 1] == '{' ==> substitution_at(s, i))
}

fn scan_space(s: &Vec<char>, i: usize) -> (r: usize)
    requires
        i <= s.len(),
    ensures
        r == space_end(s@, i as int),
        i <= r <= s.len(),
{
    let mut k = i;
    while k < s.len() && (s[k] == ' ' || s[k] == '\t' || s[k] == '\r' || s[k] == '\n')
        invariant
            i <= k <= s.len(),
            space_end(s@, i as int) == space_end(s@, k as int),
        decreases s.len() - k,
    {
        k = k + 1;
    }
    k
}

fn check_name_closes(s: &Vec<char>, k: usize, name: &str) -> (r: bool)
    requires
        k <= s.len(),
    ensures
        r == name_closes(s@, k as int, name@),
{
    let w = chars_of(name);
    if !starts_with_at(s, k, &w) {
        return false;
    }
    let m = scan_space(s, k + w.len());
    m < s.len() && m + 1 < s.len() && s[m] == '}' && s[m + 1] == '}'
}

fn check_substitution(s: &Vec<char>, i: usize) -> (r: bool)
    requires
        i + 2 <= s.len(),
    ensures
        r == substitution_at(s@, i as int),
{
    let k = scan_space(s, i + 2);
    check_name_closes(s, k, "binary_path") || check_name_closes(s, k, "binary_filepath_noextension")
        || check_name_closes(s, k, "binary_filepath")
}

/// Whether a template only substitutes the template variables.
pub fn is_plain_template(template: &str) -> (r: bool)
    ensures
        r == plain_template(template@),
{
    let s = chars_of(template);
    let mut i: usize = 0;
    while i < s.len() && i + 1 < s.len()
        invariant
            s@ == template@,
            forall|j: int|
                0 <= j < i && j < s@.len() - 1 && #[trigger] s@[j] == '{' ==> s@[j + 1] != '%'
                    && s@[j + 1] != '#' && (s@[j + 1] == '{' ==> substitution_at(s@, j)),
        decreases s.len() - i,
    {
        if s[i] == '{' {
            if s[i + 1] == '%' || s[i + 1] == '#' {
                return false;
            }
            if s[i + 1] == '{' && !check_substitution(&s, i) {
                return false;
            }
        }
        i = i + 1;
    }
    true
}

/// The variables handed to a template: name and value.
pub open spec fn template_pairs_view(v: TemplateVars) -> Seq<(Seq<char>, Seq<char>)> {
    seq![
        ("binary_path"@, v.binary_path@),
        ("binary_filepath_noextension"@, v.binary_filepath_noextension@),
        ("binary_filepath"@, v.binary_filepath@),
    ]
}

/// The template variables as name and value pairs.
pub fn template_pairs(vars: &TemplateVars) -> (r: Vec<(String, String)>)
    ensures
        r@.map_values(|p: (String, String)| (p.0@, p.1@)) == template_pairs_view(*vars),
        r@.len() == 3,
        r@[0].0@ == "binary_path"@,
        r@[0].1@ == vars.binary_path@,
        r@[1].0@ == "binary_filepath_noextension"@,
        r@[1].1@ == vars.binary_filepath_noextension@,
        r@[2].0@ == "binary_filepath"@,
        r@[2].1@ == vars.binary_filepath@,
{
    let mut pairs: Vec<(String, String)> = Vec::new();
    pairs.push((string_of(&chars_of("binary_path")), vars.binary_path.clone()));
    pairs.push(
        (
            string_of(&chars_of("binary_filepath_noextension")),
            vars.binary_filepath_noextension.clone(),
        ),
    );
    pairs.push((string_of(&chars_of("binary_filepath")), vars.binary_filepath.clone()));
    proof {
        assert(pairs@.map_values(|p: (String, String)| (p.0@, p.1@)) =~= template_pairs_view(*vars));
    }
    pairs
}

/// A plain template rendered with the given variables, or `None` where rendering fails.
pub uninterp spec fn rendered(template: Seq<char>, vars: Seq<(Seq<char>, Seq<char>)>) -> Option<Seq<char>>;

/// Relies on `tera::Tera::one_off` (without autoescaping) over a `tera::Context` holding
/// the given string variables. A plain template is text and `{{ variable }}` lookups
/// only: rendering it calls no tera expression, filter or function (none of which is then
/// left to panic or to read the environment), so its result depends on the template and
/// the variables alone.
#[verifier::external_body]
fn render_one_off(template: &str, vars: &Vec<(String, String)>) -> (r: Result<String, String>)
    requires
        plain_template(template@),
    ensures
        match r {
            Ok(s) => rendered(template@, vars@.map_values(|p: (String, String)| (p.0@, p.1@))) == Some(s@),
            Err(_) => rendered(template@, vars@.map_values(|p: (String, String)| (p.0@, p.1@))) is None,
        },
{
    let mut context = tera::Context::new();
    for (k, v) in vars {
        context.insert(k.as_str(), v);
    }
    tera::Tera::one_off(template, &context, false).map_err(|e| e.to_string())
}

/// A template rendered with the template variables, or `None` where it is not plain or
/// rendering fails.
pub open spec fn template_text(template: Seq<char>, vars: TemplateVars) -> Option<Seq<char>> {
    if plain_template(template) {
        rendered(template, template_pairs_view(vars))
    } else {
        None
    }
}

/// Renders a `load` or `pre_exit` template with the variables `binary_path`,
/// `binary_filepath_noextension` and `binary_filepath`. A template that is not plain is
/// refused; `Err` holds the reason.
pub fn render_template(template: &str, vars: &TemplateVars) -> (r: Result<String, String>)
    ensures
        match r {
            Ok(s) => template_text(template@, *vars) == Some(s@),
            Err(_) => template_text(template@, *vars) is None,
        },
{
    if !is_plain_template(template) {
        return Err(string_of(&chars_of("only {{ binary_path }}, {{ binary_filepath_noextension }} and {{ binary_filepath }} may be used in a template")));
    }
    let pairs = template_pairs(vars);
    render_one_off(template, &pairs)
}

/// The connection part of the debugger script.
pub open spec fn connection_text(gdb_connection: Option<Seq<char>>, logfile: Seq<char>, openocd_cfg: Seq<char>) -> Seq<char> {
    match gdb_connection {
        Some(c) => "target extended-remote "@ + c + "\nset logging file "@ + logfile,
        None => "target extended-remote | openocd -c \"gdb_port pipe; log_output "@ + logfile
            + "\" -f "@ + openocd_cfg,
    }
}

/// The part of the debugger script that configures the log transport on the tool side.
pub open spec fn rtt_text(segger_gdb: bool, rtt: Symbol, port: u16) -> Seq<char> {
    if segger_gdb {
        "\nmonitor exec SetRTTSearchRanges 0x"@ + digits_in(rtt.address as nat, 16) + " 0x"@
            + digits_in(rtt.size as nat, 16) + "\nmonitor exec SetRTTChannel 0\n            "@
    } else {
        "\nmonitor rtt setup 0x"@ + digits_in(rtt.address as nat, 16) + " "@ + digits_in(
            rtt.size as nat,
            10,
        ) + " \"SEGGER RTT\"\nmonitor rtt start\nmonitor rtt server start "@ + digits_in(
            port as nat,
            10,
        ) + " 0\n            "@
    }
}

/// The whole debugger script.
pub open spec fn script_text(conn: Seq<char>, load: Seq<char>, rtt: Seq<char>, sleep: Seq<char>, pre_exit: Seq<char>) -> Seq<char> {
    "\nset pagination off\n\n"@ + conn + "\n\n"@ + load + "\n\nb main\ncontinue\n\n"@ + rtt
        + "\n\nshell "@ + sleep + " 1\n\ncontinue\n\nshell "@ + sleep + " 1\n\n"@ + pre_exit
        + "\n\nquit        \n"@
}

pub open spec fn opt_view(o: Option<String>) -> Option<Seq<char>> {
    match o {
        Some(s) => Some(s@),
        None => None,
    }
}

/// The sleep command of the host: `timeout` on Windows unless `windows_sleep` asks for
/// `sleep`, else `sleep`.
pub open spec fn sleep_text(windows_host: bool, windows_sleep: Option<bool>) -> Seq<char> {
    if windows_sleep == Some(true) || !windows_host {
        "sleep"@
    } else {
        "timeout"@
    }
}

fn append_str(out: &mut Vec<char>, s: &str)
    ensures
        final(out)@ == old(out)@ + s@,
{
    let cs = chars_of(s);
    push_all(out, &cs);
}

/// The debugger script from its resolved parts.
pub fn script_from_parts(
    conn: &Vec<char>,
    load: &Vec<char>,
    rtt: &Vec<char>,
    sleep: &Vec<char>,
    pre_exit: &Vec<char>,
) -> (r: String)
    ensures
        r@ == script_text(conn@, load@, rtt@, sleep@, pre_exit@),
{
    let mut out: Vec<char> = Vec::new();
    append_str(&mut out, "\nset pagination off\n\n");
    push_all(&mut out, conn);
    append_str(&mut out, "\n\n");
    push_all(&mut out, load);
    append_str(&mut out, "\n\nb main\ncontinue\n\n");
    push_all(&mut out, rtt);
    append_str(&mut out, "\n\nshell ");
    push_all(&mut out, sleep);
    append_str(&mut out, " 1\n\ncontinue\n\nshell ");
    push_all(&mut out, sleep);
    append_str(&mut out, " 1\n\n");
    push_all(&mut out, pre_exit);
    append_str(&mut out, "\n\nquit        \n");
    proof {
        assert(out@ =~= script_text(conn@, load@, rtt@, sleep@, pre_exit@));
    }
    string_of(&out)
}

fn rtt_section(segger_gdb: bool, rtt: Symbol, port: u16) -> (r: Vec<char>)
    ensures
        r@ == rtt_text(segger_gdb, rtt, port),
{
    let mut out: Vec<char> = Vec::new();
    if segger_gdb {
        append_str(&mut out, "\nmonitor exec SetRTTSearchRanges 0x");
        push_all(&mut out, &format_u64(rtt.address, 16));
        append_str(&mut out, " 0x");
        push_all(&mut out, &format_u64(rtt.size, 16));
        append_str(&mut out, "\nmonitor exec SetRTTChannel 0\n            ");
    } else {
        append_str(&mut out, "\nmonitor rtt setup 0x");
        push_all(&mut out, &format_u64(rtt.address, 16));
        append_str(&mut out, " ");
        push_all(&mut out, &format_u64(rtt.size, 10));
        append_str(&mut out, " \"SEGGER RTT\"\nmonitor rtt start\nmonitor rtt server start ");
        push_all(&mut out, &format_u64(port as u64, 10));
        append_str(&mut out, " 0\n            ");
    }
    proof {
        assert(out@ =~= rtt_text(segger_gdb, rtt, port));
    }
    out
}

fn connection_section(gdb_connection: &Option<String>, logfile: &str, openocd_cfg: &str) -> (r: Vec<char>)
    ensures
        r@ == connection_text(opt_view(*gdb_connection), logfile@, openocd_cfg@),
{
    let mut out: Vec<char> = Vec::new();
    match gdb_connection {
        Some(c) => {
            append_str(&mut out, "target extended-remote ");
            append_str(&mut out, c.as_str());
            append_str(&mut out, "\nset logging file ");
            append_str(&mut out, logfile);
        },
        None => {
            append_str(&mut out, "target extended-remote | openocd -c \"gdb_port pipe; log_output ");
            append_str(&mut out, logfile);
            append_str(&mut out, "\" -f ");
            append_str(&mut out, openocd_cfg);
        },
    }
    proof {
        assert(out@ =~= connection_text(opt_view(*gdb_connection), logfile@, openocd_cfg@));
    }
    out
}


/// The `load` section: the rendered template, or `load` where none is configured.
pub open spec fn load_text(load: Option<String>, vars: TemplateVars) -> Option<Seq<char>> {
    match load {
        Some(t) => template_text(t@, vars),
        None => Some("load"@),
    }
}

/// The `pre_exit` section: the rendered template, or nothing where none is configured.
pub open spec fn pre_exit_text(pre_exit: Option<String>, vars: TemplateVars) -> Option<Seq<char>> {
    match pre_exit {
        Some(t) => template_text(t@, vars),
        None => Some(Seq::empty()),
    }
}

/// The control block found in the binary, if any.
pub open spec fn rtt_block_of(data: Seq<u8>) -> Option<Symbol> {
    match object_symbols(data) {
        None => None,
        Some(ss) => {
            let i = first_named(ss, "_SEGGER_RTT"@);
            if i >= 0 {
                Some(Symbol { address: ss[i].1, size: ss[i].2 })
            } else {
                None
            }
        },
    }
}

impl RunnerConfig {
    pub open spec fn logfile_text(&self, default_logfile: Seq<char>) -> Seq<char> {
        match self.gdb_logfile {
            Some(l) => l@,
            None => default_logfile,
        }
    }

    pub open spec fn openocd_text(&self) -> Seq<char> {
        match self.openocd_cfg {
            Some(o) => o@,
            None => ".embedded/openocd.cfg"@,
        }
    }

    pub open spec fn port(&self) -> u16 {
        match self.rtt_port {
            Some(p) => p,
            None => crate::DEFAULT_RTT_PORT,
        }
    }

    /// The script with the given control block and rendered `load` and `pre_exit` texts.
    pub open spec fn script_with(
        &self,
        default_logfile: Seq<char>,
        rtt: Symbol,
        windows_host: bool,
        segger_gdb: bool,
        load: Seq<char>,
        pre_exit: Seq<char>,
    ) -> Seq<char> {
        script_text(
            connection_text(
                opt_view(self.gdb_connection),
                self.logfile_text(default_logfile),
                self.openocd_text(),
            ),
            load,
            rtt_text(segger_gdb, rtt, self.port()),
            sleep_text(windows_host, self.windows_sleep),
            pre_exit,
        )
    }

    /// The debugger script for a binary, given its bytes, its template values, the log
    /// file to use where none is configured, and whether the host runs Windows.
    pub fn gdb_script(
        &self,
        binary: &[u8],
        vars: &TemplateVars,
        default_logfile: &str,
        windows_host: bool,
        segger_gdb: bool,
    ) -> (r: Result<String, CfgError>)
        ensures
            ({
                let load = load_text(self.load, *vars);
                let rtt = rtt_block_of(binary@);
                let pre = pre_exit_text(self.pre_exit, *vars);
                &&& load is None ==> (r matches Err(CfgError::ResolvingLoad(_)))
                &&& load is Some && rtt is None ==> (r matches Err(CfgError::FindingRttBlock(_)))
                &&& load is Some && rtt is Some && pre is None ==> (r matches Err(
                    CfgError::ResolvingPreExit(_),
                ))
                &&& load is Some && rtt is Some && pre is Some ==> (r matches Ok(s) && s@
                    == self.script_with(
                    default_logfile@,
                    rtt->0,
                    windows_host,
                    segger_gdb,
                    load->0,
                    pre->0,
                ))
            }),
    {
        let load = match &self.load {
            Some(t) => match render_template(t.as_str(), vars) {
                Ok(s) => chars_of(s.as_str()),
                Err(e) => {
                    return Err(CfgError::ResolvingLoad(e));
                },
            },
            None => chars_of("load"),
        };
        let rtt = match find_rtt_block(binary) {
            Ok(b) => b,
            Err(e) => {
                return Err(e);
            },
        };
        let sleep = if self.windows_sleep == Some(true) || !windows_host {
            chars_of("sleep")
        } else {
            chars_of("timeout")
        };
        let logfile = match &self.gdb_logfile {
            Some(l) => chars_of(l.as_str()),
            None => chars_of(default_logfile),
        };
        let openocd = match &self.openocd_cfg {
            Some(o) => chars_of(o.as_str()),
            None => chars_of(".embedded/openocd.cfg"),
        };
        let port = match self.rtt_port {
            Some(p) => p,
            None => crate::DEFAULT_RTT_PORT,
        };
        let conn = connection_section(&self.gdb_connection, string_of(&logfile).as_str(), string_of(&openocd).as_str());
        let rtt_part = rtt_section(segger_gdb, rtt, port);
        let pre = match &self.pre_exit {
            Some(t) => match render_template(t.as_str(), vars) {
                Ok(s) => chars_of(s.as_str()),
                Err(e) => {
                    return Err(CfgError::ResolvingPreExit(e));
                },
            },
            None => Vec::new(),
        };
        let script = script_from_parts(&conn, &load, &rtt_part, &sleep, &pre);
        proof {
            assert(self.pre_exit is None ==> pre@ == Seq::<char>::empty());
            assert(self.load is None ==> load@ == "load"@);
            assert(rtt_block_of(binary@) == Some(rtt));
            let rb = rtt_block_of(binary@)->0;
            assert(rb == rtt);
            assert(script@ == self.script_with(default_logfile@, rb, windows_host, segger_gdb, load@, pre@));
        }
        Ok(script)
    }
}

} // verus!
