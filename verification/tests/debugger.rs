use scx_simulator::debugger::{
    discover_helper_functions, is_traced, parse_nm_helper_symbol, AttachInfo, DebuggerFlavor,
};

#[test]
fn parse_nm_text_symbol_from_helper_source() {
    let line = "0000000000000900 t get_cpu_ctx\t/some/path/util.bpf.c:71";
    assert_eq!(parse_nm_helper_symbol(line), Some("get_cpu_ctx".to_owned()));
}

#[test]
fn parse_nm_global_text_symbol_from_wrapper() {
    let line = "000000000001efc0 T bpf_cgroup_from_id\t/some/path/wrapper.c:385";
    assert_eq!(
        parse_nm_helper_symbol(line),
        Some("bpf_cgroup_from_id".to_owned())
    );
}

#[test]
fn parse_nm_skips_non_text_symbols() {
    // Data symbol (V) from util.bpf.c — should be ignored.
    let line = "000000000001f000 V cpu_ctx_stor\t/some/path/util.bpf.c:62";
    assert_eq!(parse_nm_helper_symbol(line), None);
}

#[test]
fn parse_nm_skips_underscore_prefix() {
    let line = "0000000000000900 T _internal_func\t/some/path/wrapper.c:10";
    assert_eq!(parse_nm_helper_symbol(line), None);
}

#[test]
fn parse_nm_skips_dot_prefix() {
    let line = "0000000000000900 t .hidden_func\t/some/path/util.bpf.c:5";
    assert_eq!(parse_nm_helper_symbol(line), None);
}

#[test]
fn parse_nm_skips_non_helper_source() {
    let line = "0000000000000490 T simple_dispatch\t/some/path/scx_simple.bpf.c:98";
    assert_eq!(parse_nm_helper_symbol(line), None);
}

#[test]
fn parse_nm_skips_lines_without_tab() {
    let line = "                 U calloc";
    assert_eq!(parse_nm_helper_symbol(line), None);
}

#[test]
fn parse_nm_source_without_line_number() {
    // Some nm outputs omit the line number.
    let line = "0000000000000900 t helper_fn\t/some/path/wrapper.c";
    assert_eq!(parse_nm_helper_symbol(line), Some("helper_fn".to_owned()));
}

#[test]
fn lldb_helper_commands_empty_names() {
    assert_eq!(DebuggerFlavor::Lldb.build_helper_commands(&[]), None);
}

#[test]
fn gdb_helper_commands_empty_names() {
    assert_eq!(DebuggerFlavor::Gdb.build_helper_commands(&[]), None);
}

#[test]
fn lldb_helper_commands_single_name() {
    let names = vec!["get_cpu_ctx".to_owned()];
    let cmds = DebuggerFlavor::Lldb.build_helper_commands(&names).unwrap();
    assert!(cmds.contains("command alias skip-helpers"));
    assert!(cmds.contains("command alias unskip-helpers"));
    assert!(cmds.contains("\"^(get_cpu_ctx)\""));
    assert!(cmds.contains("settings clear target.process.thread.step-avoid-regexp"));
}

#[test]
fn lldb_helper_commands_multiple_names() {
    let names = vec![
        "calc_avg".to_owned(),
        "get_cpu_ctx".to_owned(),
        "stat_inc".to_owned(),
    ];
    let cmds = DebuggerFlavor::Lldb.build_helper_commands(&names).unwrap();
    assert!(cmds.contains("command alias skip-helpers"));
    assert!(cmds.contains("\"^(calc_avg|get_cpu_ctx|stat_inc)\""));
    assert!(cmds.contains("command alias unskip-helpers"));
}

#[test]
fn gdb_helper_commands_single_name() {
    let names = vec!["get_cpu_ctx".to_owned()];
    let cmds = DebuggerFlavor::Gdb.build_helper_commands(&names).unwrap();
    assert!(cmds.contains("define skip-helpers"));
    assert!(cmds.contains("skip -rfu \"^(get_cpu_ctx)\""));
    assert!(cmds.contains("define unskip-helpers"));
    assert!(cmds.contains("info skip"));
}

#[test]
fn gdb_helper_commands_multiple_names() {
    let names = vec![
        "calc_avg".to_owned(),
        "get_cpu_ctx".to_owned(),
        "stat_inc".to_owned(),
    ];
    let cmds = DebuggerFlavor::Gdb.build_helper_commands(&names).unwrap();
    assert!(cmds.contains("define skip-helpers"));
    assert!(cmds.contains("skip -rfu \"^(calc_avg|get_cpu_ctx|stat_inc)\""));
    assert!(cmds.contains("define unskip-helpers"));
}

#[test]
fn lldb_fmt_breakpoint() {
    assert_eq!(
        DebuggerFlavor::Lldb.fmt_breakpoint("simple_init"),
        "breakpoint set --name simple_init\n"
    );
}

#[test]
fn gdb_fmt_breakpoint() {
    assert_eq!(
        DebuggerFlavor::Gdb.fmt_breakpoint("simple_init"),
        "break simple_init\n"
    );
}

#[test]
fn gdb_skip_simulator_contains_rust_mangled_skip() {
    let skip = DebuggerFlavor::Gdb.fmt_skip_simulator(None);
    assert!(skip.contains("skip -rfu \"^_ZN\""));
    assert!(skip.contains("skip -rfu \"^scx_bpf_\""));
    assert!(skip.contains("skip -rfu \"^scx_test_\""));
    assert!(skip.contains("skip -rfu \"^sim_\""));
}

#[test]
fn lldb_skip_simulator_uses_step_avoid_libraries() {
    let skip = DebuggerFlavor::Lldb.fmt_skip_simulator(Some("/usr/bin/scxsim"));
    assert!(skip.contains("settings set target.process.thread.step-avoid-libraries"));
}

#[test]
fn debugger_flavor_extensions() {
    assert_eq!(DebuggerFlavor::Lldb.extension(), "lldb");
    assert_eq!(DebuggerFlavor::Gdb.extension(), "gdb");
}

#[test]
fn gdb_signal_handling_contains_sigfpe() {
    let cmds = DebuggerFlavor::Gdb.fmt_signal_handling();
    assert!(cmds.contains("handle SIGFPE nostop noprint pass"));
}

#[test]
fn lldb_signal_handling_contains_sigfpe() {
    let cmds = DebuggerFlavor::Lldb.fmt_signal_handling();
    assert!(cmds.contains("process handle SIGFPE -s false -n false -p true"));
}

#[test]
fn lldb_skips_nothing_without_a_file() {
    assert_eq!(DebuggerFlavor::Lldb.fmt_skip_simulator(None), "");
}

#[test]
fn helpers_come_in_order_and_once() {
    let lines: Vec<String> = [
        "0000000000000900 t stat_inc\t/p/util.bpf.c:71",
        "0000000000000910 T calc_avg\t/p/wrapper.c:1",
        "                 U calloc",
        "0000000000000920 t stat_inc\t/p/wrapper.c:9",
        "0000000000000930 t calc\t/p/wrapper.c",
    ]
    .iter()
    .map(|s| s.to_string())
    .collect();
    assert_eq!(
        discover_helper_functions(&lines),
        vec!["calc", "calc_avg", "stat_inc"]
    );
}

#[test]
fn a_script_has_its_parts_in_order() {
    let (script, helpers) = DebuggerFlavor::Gdb.build_script(
        "simple",
        None,
        &vec!["simple_init".to_string(), "simple_exit".to_string()],
        &vec!["get_cpu_ctx".to_string()],
    );
    assert!(helpers);
    assert!(script.starts_with(
        "# Auto-generated gdb breakpoint script for scheduler ops\n# Scheduler: simple\n\n"
    ));
    assert!(script.contains("break simple_init\nbreak simple_exit\n\n# Custom commands"));
    assert!(script.ends_with("  info skip\nend\n"));
    let (bare, none) = DebuggerFlavor::Lldb.build_script("simple", None, &vec![], &vec![]);
    assert!(!none);
    assert!(bare.ends_with("process handle SIGFPE -s false -n false -p true\n\n"));
}

#[test]
fn a_tracer_is_seen() {
    let status = |s: &str| -> Vec<String> { s.lines().map(|l| l.to_string()).collect() };
    assert!(is_traced(&status("Name:\tx\nTracerPid:\t77\n")));
    assert!(!is_traced(&status("Name:\tx\nTracerPid:\t0\n")));
    assert!(!is_traced(&status("Name:\tx\n")));
    assert!(!is_traced(&status("TracerPid:\tnobody\n")));
}

#[test]
fn the_message_tells_how_to_attach() {
    let info = AttachInfo {
        pid: 12,
        so_path: "/s/libscx_simple.so".to_string(),
        lldb_script: Some("/s/a.lldb".to_string()),
        gdb_script: None,
        breakpoints: 3,
        has_helpers: false,
        workspace: None,
    };
    assert_eq!(
        info.text(),
        "\n=== --wait-debugger ===\nPID: 12\nScheduler .so: /s/libscx_simple.so\n\
         Breakpoints: 3 ops callbacks\n\nWaiting for debugger to attach...\n\n\
         Attach with lldb:\n  lldb -p 12 -o \"command source /s/a.lldb\"\n\n\
         Attach with gdb:\n  gdb -p 12\n\nAttach with VSCode:\n  \
         Run & Debug (Ctrl+Shift+D) \u{2192} \"Attach\" \u{2192} enter PID 12\n\n"
    );
}
