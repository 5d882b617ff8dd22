use embedded_runner::cfg::{
    find_rtt_block, find_symbol, is_plain_template, render_template, template_pairs, script_from_parts, CfgError, RunnerConfig,
    SymbolEntry, Symbol, TemplateVars,
};

fn entry(name: Option<&str>, address: u64, size: u64) -> SymbolEntry {
    SymbolEntry { name: name.map(|n| n.to_string()), address, size }
}

#[test]
fn first_matching_symbol() {
    let table = vec![
        entry(Some("main"), 1, 2),
        entry(None, 3, 4),
        entry(Some("_SEGGER_RTT"), 0x2000_0000, 0x30),
        entry(Some("_SEGGER_RTT"), 9, 9),
    ];
    assert_eq!(find_symbol(&table, "_SEGGER_RTT"), Some(Symbol { address: 0x2000_0000, size: 0x30 }));
    assert_eq!(find_symbol(&table, "missing"), None);
}

#[test]
fn rtt_block_needs_an_object_file() {
    assert!(matches!(find_rtt_block(b"not an object file"), Err(CfgError::FindingRttBlock(_))));
}

fn vars() -> TemplateVars {
    TemplateVars {
        binary_path: "./target/debug".to_string(),
        binary_filepath_noextension: "./target/debug/hello".to_string(),
        binary_filepath: "./target/debug/hello.exe".to_string(),
    }
}

#[test]
fn load_template() {
    let load = "load \"{{ binary_path }}/debug_config.ihex\"\nload \"{{ binary_filepath_noextension }}.ihex\"\nfile \"{{ binary_filepath }}\"";
    let resolved = render_template(load, &vars()).unwrap();
    assert!(resolved.contains("target/debug/debug_config.ihex"));
    assert!(resolved.contains("target/debug/hello.ihex"));
    assert!(resolved.contains("target/debug/hello.exe"));
    assert!(render_template("{{ unclosed", &vars()).is_err());
}

#[test]
fn script_layout() {
    let c = |s: &str| s.chars().collect::<Vec<char>>();
    let s = script_from_parts(&c("CONN"), &c("load"), &c("RTT"), &c("sleep"), &c(""));
    assert_eq!(
        s,
        "\nset pagination off\n\nCONN\n\nload\n\nb main\ncontinue\n\nRTT\n\nshell sleep 1\n\ncontinue\n\nshell sleep 1\n\n\n\nquit        \n"
    );
}

fn config() -> RunnerConfig {
    RunnerConfig {
        load: None,
        pre_exit: None,
        openocd_cfg: None,
        gdb_connection: None,
        gdb_logfile: None,
        pre_runner: None,
        pre_runner_windows: None,
        post_runner: None,
        post_runner_windows: None,
        rtt_port: None,
        windows_sleep: None,
        extern_coverage: None,
        segger_gdb: false,
        data_filepath: None,
    }
}

#[test]
fn script_needs_the_control_block() {
    let r = config().gdb_script(b"garbage", &vars(), "out/gdb.log", false, false);
    assert!(matches!(r, Err(CfgError::FindingRttBlock(_))));
}

#[test]
fn bad_load_template_is_reported_first() {
    let mut cfg = config();
    cfg.load = Some("{{ broken".to_string());
    let r = cfg.gdb_script(b"garbage", &vars(), "out/gdb.log", false, false);
    assert!(matches!(r, Err(CfgError::ResolvingLoad(_))));
}

fn push16(v: &mut Vec<u8>, x: u16) {
    v.extend_from_slice(&x.to_le_bytes());
}

fn push32(v: &mut Vec<u8>, x: u32) {
    v.extend_from_slice(&x.to_le_bytes());
}

/// A minimal 32-bit little-endian ELF file whose symbol table holds `main` and the
/// transport's control block.
fn tiny_elf() -> Vec<u8> {
    let strtab = b"\0main\0_SEGGER_RTT\0".to_vec();
    let shstrtab = b"\0.symtab\0.strtab\0.shstrtab\0".to_vec();
    let mut symtab = Vec::new();
    symtab.extend_from_slice(&[0u8; 16]);
    for (name, value, size) in [(1u32, 0x100u32, 4u32), (6, 0x2000_0400, 0x30)] {
        push32(&mut symtab, name);
        push32(&mut symtab, value);
        push32(&mut symtab, size);
        symtab.push(0x11);
        symtab.push(0);
        push16(&mut symtab, 0xfff1);
    }
    let symtab_off = 52u32;
    let strtab_off = symtab_off + symtab.len() as u32;
    let shstrtab_off = strtab_off + strtab.len() as u32;
    let mut sh_off = shstrtab_off + shstrtab.len() as u32;
    sh_off += (4 - sh_off % 4) % 4;

    let mut v = vec![0x7f, b'E', b'L', b'F', 1, 1, 1, 0, 0, 0, 0, 0, 0, 0, 0, 0];
    push16(&mut v, 2);
    push16(&mut v, 40);
    push32(&mut v, 1);
    push32(&mut v, 0);
    push32(&mut v, 0);
    push32(&mut v, sh_off);
    push32(&mut v, 0x0500_0000);
    push16(&mut v, 52);
    push16(&mut v, 32);
    push16(&mut v, 0);
    push16(&mut v, 40);
    push16(&mut v, 4);
    push16(&mut v, 3);
    v.extend_from_slice(&symtab);
    v.extend_from_slice(&strtab);
    v.extend_from_slice(&shstrtab);
    while (v.len() as u32) < sh_off {
        v.push(0);
    }
    let sections = [
        [0u32; 10],
        [1, 2, 0, 0, symtab_off, symtab.len() as u32, 2, 1, 4, 16],
        [9, 3, 0, 0, strtab_off, strtab.len() as u32, 0, 0, 1, 0],
        [17, 3, 0, 0, shstrtab_off, shstrtab.len() as u32, 0, 0, 1, 0],
    ];
    for sh in sections {
        for x in sh {
            push32(&mut v, x);
        }
    }
    v
}

#[test]
fn rtt_block_in_binary() {
    let elf = tiny_elf();
    let block = find_rtt_block(&elf).unwrap();
    assert_eq!(block, Symbol { address: 0x2000_0400, size: 0x30 });
}

#[test]
fn openocd_script() {
    let mut cfg = config();
    cfg.load = Some("load {{ binary_filepath }}".to_string());
    let s = cfg.gdb_script(&tiny_elf(), &vars(), "out/gdb.log", false, false).unwrap();
    assert_eq!(
        s,
        "\nset pagination off\n\ntarget extended-remote | openocd -c \"gdb_port pipe; log_output out/gdb.log\" -f .embedded/openocd.cfg\n\nload ./target/debug/hello.exe\n\nb main\ncontinue\n\n\nmonitor rtt setup 0x20000400 48 \"SEGGER RTT\"\nmonitor rtt start\nmonitor rtt server start 19021 0\n            \n\nshell sleep 1\n\ncontinue\n\nshell sleep 1\n\n\n\nquit        \n"
    );
}

#[test]
fn segger_script_on_windows_host() {
    let mut cfg = config();
    cfg.gdb_connection = Some("localhost:2331".to_string());
    cfg.gdb_logfile = Some("logs/g.log".to_string());
    cfg.pre_exit = Some("monitor reset".to_string());
    let s = cfg.gdb_script(&tiny_elf(), &vars(), "out/gdb.log", true, true).unwrap();
    assert_eq!(
        s,
        "\nset pagination off\n\ntarget extended-remote localhost:2331\nset logging file logs/g.log\n\nload\n\nb main\ncontinue\n\n\nmonitor exec SetRTTSearchRanges 0x20000400 0x30\nmonitor exec SetRTTChannel 0\n            \n\nshell timeout 1\n\ncontinue\n\nshell timeout 1\n\nmonitor reset\n\nquit        \n"
    );
    cfg.windows_sleep = Some(true);
    cfg.rtt_port = Some(4000);
    let s = cfg.gdb_script(&tiny_elf(), &vars(), "out/gdb.log", true, false).unwrap();
    assert!(s.contains("shell sleep 1"));
    assert!(s.contains("monitor rtt server start 4000 0"));
}

#[test]
fn bad_pre_exit_template() {
    let mut cfg = config();
    cfg.pre_exit = Some("{% if %}".to_string());
    let r = cfg.gdb_script(&tiny_elf(), &vars(), "out/gdb.log", false, false);
    assert!(matches!(r, Err(CfgError::ResolvingPreExit(_))));
}

#[test]
fn only_plain_templates_are_rendered() {
    assert!(is_plain_template("load {{ binary_path }}/x {{binary_filepath}}"));
    assert!(is_plain_template("no tags at all { } }}"));
    assert!(is_plain_template("{{\tbinary_filepath_noextension\n}}.ihex"));
    assert!(!is_plain_template("{{ -9223372036854775808 % -1 }}"));
    assert!(!is_plain_template("{{ get_env(name=\"HOME\") }}"));
    assert!(!is_plain_template("{% if true %}x{% endif %}"));
    assert!(!is_plain_template("{# note #}"));
    assert!(!is_plain_template("{{ binary_path | upper }}"));
    assert!(!is_plain_template("{{ binary_filepath_no }}"));
    assert!(!is_plain_template("{{ binary_path "));
    assert!(render_template("{{ -9223372036854775808 % -1 }}", &vars()).is_err());
}

#[test]
fn arithmetic_template_is_refused_before_rendering() {
    let mut cfg = config();
    cfg.load = Some("{{ -9223372036854775808 % -1 }}".to_string());
    let r = cfg.gdb_script(&tiny_elf(), &vars(), "out/gdb.log", false, false);
    assert!(matches!(r, Err(CfgError::ResolvingLoad(_))));
}

#[test]
fn pairs_name_the_three_values() {
    let p = template_pairs(&vars());
    assert_eq!(
        p,
        vec![
            ("binary_path".to_string(), "./target/debug".to_string()),
            ("binary_filepath_noextension".to_string(), "./target/debug/hello".to_string()),
            ("binary_filepath".to_string(), "./target/debug/hello.exe".to_string()),
        ]
    );
}
