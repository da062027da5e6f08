use lithographer::devices::{
    device_display_name, size_label_from_sectors, sort_storage_devices, storage_device_info,
    RawDeviceInfo, SizeLabel, StorageDeviceInfo,
};
use lithographer::diagnostics::{
    agent_fallbacks_for_lowered, extract_executable_path_from_ps, greet, image_dialog_title,
    is_clone_mode, lines, linux_agent_candidates, litho_spawn_preview,
    litho_spawn_preview_unresolved, perform_startup_checks_with_sidecar, permits_execution,
    platform_name, polkit_agent_candidates, ps_line_mentions_polkit_agent,
    startup_privilege_note, words, StartupProbe,
};
use lithographer::fields::parse_fields;
use lithographer::launch::{launch_args_want_console, parse_launch_args};
use lithographer::litho_output::{parse_litho_line, LithoUiEvent};
use lithographer::litho_runner::{
    build_run_request, cancel_litho_operation, completion_events, elevation_precheck,
    handoff_status_event, launcher_label, litho_exit_message, litho_gui_args, litho_subcommand,
    lithographer_elevation_cli_args, spawn_error_message, spawn_route, LithoRunRequest,
    LithoRunnerState, SpawnRoute,
};
use lithographer::litho_sidecar::{
    dedupe_paths, needs_pkexec_staging, sidecar_candidates, sidecar_not_found_message,
    staged_sidecar_name, PathEntry,
};
use lithographer::privilege::{
    elevated_launch_outcome, elevated_process_outcome, elevation_method, elevation_ready,
    environment_label, has_privileged_access, is_running_as_root, needs_windows_quoting,
    platform_environment, polkit_agent_ready, relaunch_precheck, relaunch_status_result,
    spawn_mode, windows_argument_string, Platform, WindowsVersion,
};
use lithographer::text::{parse_u64, parse_usize, u64_to_string};

fn s(x: &str) -> String {
    x.to_string()
}

fn strings(xs: &[&str]) -> Vec<String> {
    xs.iter().map(|x| x.to_string()).collect()
}

fn entries(xs: &[&str]) -> Vec<PathEntry> {
    xs.iter()
        .map(|p| PathEntry {
            text: p.to_string(),
            components: std::path::Path::new(p)
                .components()
                .map(|c| c.as_os_str().to_string_lossy().into_owned())
                .collect(),
        })
        .collect()
}

fn request(mode: &str, verify: bool, auto_unmount: bool) -> LithoRunRequest {
    LithoRunRequest {
        mode: s(mode),
        device: s("/dev/sdb"),
        image: s("/home/u/disk image.img"),
        block_size: 4_194_304,
        verify,
        auto_unmount,
    }
}

fn done(success: bool, cancelled: bool) -> LithoUiEvent {
    LithoUiEvent::Done { success, cancelled }
}

fn error(message: &str) -> LithoUiEvent {
    LithoUiEvent::Error { message: s(message) }
}

// ---------------------------------------------------------------------------
// Protocol lines
// ---------------------------------------------------------------------------

#[test]
fn status_line_gives_phase_and_message() {
    let e = parse_litho_line("stdout", r#"@status phase=preparing msg="Opening /dev/sdb""#);
    assert_eq!(
        e,
        LithoUiEvent::Status { phase: Some(s("preparing")), message: Some(s("Opening /dev/sdb")) }
    );
}

#[test]
fn surrounding_whitespace_is_ignored() {
    let e = parse_litho_line("stdout", " \t@done ok \r\n");
    assert_eq!(e, done(true, false));
}

#[test]
fn done_result_ignores_ascii_case() {
    assert_eq!(parse_litho_line("stdout", "@done OK"), done(true, false));
    assert_eq!(parse_litho_line("stdout", "@done failed"), done(false, false));
}

#[test]
fn error_without_msg_uses_the_rest_of_the_line() {
    let e = parse_litho_line("stderr", "@error disk vanished");
    assert_eq!(e, error("disk vanished"));
}

#[test]
fn unknown_and_empty_lines_are_raw_and_trimmed() {
    assert_eq!(
        parse_litho_line("stderr", "  plain text  "),
        LithoUiEvent::Raw { stream: s("stderr"), line: s("plain text") }
    );
    assert_eq!(
        parse_litho_line("stdout", "   "),
        LithoUiEvent::Raw { stream: s("stdout"), line: s("") }
    );
    // A tag needs its trailing space.
    assert_eq!(
        parse_litho_line("stdout", "@status"),
        LithoUiEvent::Raw { stream: s("stdout"), line: s("@status") }
    );
}

#[test]
fn progress_numbers_that_do_not_parse_are_dropped() {
    let e = parse_litho_line("stdout", "@progress bytes=18446744073709551616 total=+12 pct=x");
    assert_eq!(
        e,
        LithoUiEvent::Progress {
            phase: None,
            pct: Some(s("x")),
            bytes: None,
            total: Some(12),
            message: None,
        }
    );
}

#[test]
fn fields_quotes_escapes_and_repeats() {
    let f = parse_fields(r#"  a=1 b="x \"y\" \\ z" a=2 c= d"#);
    assert_eq!(f.get("a"), Some(s("2")));
    assert_eq!(f.get("b"), Some(s(r#"x "y" \ z"#)));
    assert_eq!(f.get("c"), Some(s("")));
    assert_eq!(f.get("d"), None);
    assert_eq!(f.len(), 3);
}

#[test]
fn fields_written_then_read_back() {
    let pairs = [("msg", "say \"hi\" to C:\\x"), ("phase", ""), ("msg", "later")];
    let written: Vec<String> = pairs
        .iter()
        .map(|(k, v)| format!("{}=\"{}\"", k, v.replace('\\', "\\\\").replace('"', "\\\"")))
        .collect();
    let f = parse_fields(&written.join(" "));
    assert_eq!(f.get("msg"), Some(s("later")));
    assert_eq!(f.get("phase"), Some(s("")));
    assert_eq!(f.len(), 2);
    let one = parse_fields(r#"msg="say \"hi\" to C:\\x""#);
    assert_eq!(one.get("msg"), Some(s(r#"say "hi" to C:\x"#)));
}

#[test]
fn fields_key_runs_to_equals_sign_and_unterminated_quote() {
    let f = parse_fields(r#"a b=c msg="no end"#);
    assert_eq!(f.get("a b"), Some(s("c")));
    assert_eq!(f.get("msg"), Some(s("no end")));
}

#[test]
fn quoted_values_copy_utf8_bytes_one_by_one() {
    let f = parse_fields("q=\"é\" u=é");
    assert_eq!(f.get("q"), Some(s("\u{c3}\u{a9}")));
    assert_eq!(f.get("u"), Some(s("é")));
}

#[test]
fn decimal_parsing_and_formatting() {
    assert_eq!(parse_u64("0"), Some(0));
    assert_eq!(parse_u64("+42"), Some(42));
    assert_eq!(parse_u64("-1"), None);
    assert_eq!(parse_u64(""), None);
    assert_eq!(parse_u64("+"), None);
    assert_eq!(parse_u64("18446744073709551615"), Some(u64::MAX));
    assert_eq!(parse_u64("18446744073709551616"), None);
    assert_eq!(parse_usize("4096"), Some(4096));
    assert_eq!(u64_to_string(1_234_567), "1234567");
    assert_eq!(parse_u64(&u64_to_string(u64::MAX)), Some(u64::MAX));
}

// ---------------------------------------------------------------------------
// Runner
// ---------------------------------------------------------------------------

#[test]
fn litho_args_for_flash_with_verify() {
    let args = litho_gui_args(&request("Flash", true, false), "/tmp/cancel.flag");
    assert_eq!(
        args,
        strings(&[
            "-o",
            "gui",
            "flash",
            "-f",
            "/home/u/disk image.img",
            "-d",
            "/dev/sdb",
            "-b",
            "4194304",
            "--cancel-file",
            "/tmp/cancel.flag",
            "--verify",
            "--yes",
        ])
    );
}

#[test]
fn litho_args_for_backup_never_verify() {
    let args = litho_gui_args(&request("BACKUP", true, true), "c");
    assert_eq!(args[2], "clone");
    assert!(!args.contains(&s("--verify")));
    assert_eq!(args.last(), Some(&s("--yes")));
}

#[test]
fn subcommand_lowercases_the_mode() {
    assert_eq!(litho_subcommand("CLONE"), "clone");
    assert_eq!(litho_subcommand("Backup"), "clone");
    assert_eq!(litho_subcommand("anything"), "flash");
}

#[test]
fn elevation_handoff_round_trip() {
    let req = request("Backup", true, true);
    let args = lithographer_elevation_cli_args(&req);
    assert_eq!(
        args,
        strings(&[
            "--mode",
            "Backup",
            "--device",
            "/dev/sdb",
            "--image",
            "/home/u/disk image.img",
            "--block-size",
            "4194304",
            "--auto-run",
            "--verify",
            "--auto-unmount",
        ])
    );
    let p = parse_launch_args(&args);
    assert_eq!(p.mode, Some(s("clone")));
    assert_eq!(p.device, Some(s("/dev/sdb")));
    assert_eq!(p.image, Some(s("/home/u/disk image.img")));
    assert_eq!(p.block_size, Some(4_194_304));
    assert!(p.auto_run);
    assert!(p.verify);
}

#[test]
fn launch_args_positionals_and_missing_values() {
    let p = parse_launch_args(&strings(&["a.img", "/dev/sdc", "extra", "-b", "x", "--mode"]));
    assert_eq!(p.image, Some(s("a.img")));
    assert_eq!(p.device, Some(s("/dev/sdc")));
    assert_eq!(p.block_size, None);
    assert_eq!(p.mode, None);
    assert!(!p.auto_run);
    let q = parse_launch_args(&strings(&["-m", "write", "--file", "b.iso"]));
    assert_eq!(q.mode, Some(s("flash")));
    assert_eq!(q.image, Some(s("b.iso")));
}

#[test]
fn runner_state_machine() {
    let mut st = LithoRunnerState::new();
    assert_eq!(cancel_litho_operation(&mut st), Ok(None));
    assert!(st.begin().is_ok());
    st.mark_started(s("/tmp/flag"));
    assert_eq!(st.begin(), Err(s("An operation is already in progress.")));
    assert_eq!(cancel_litho_operation(&mut st), Ok(Some(s("/tmp/flag"))));
    assert!(st.cancel_requested);
    let (cancelled, file) = st.finish();
    assert!(cancelled);
    assert_eq!(file, Some(s("/tmp/flag")));
    assert!(!st.running && !st.cancel_requested && st.cancel_file.is_none());
    assert!(st.begin().is_ok());
}

#[test]
fn whole_run_keeps_flag_file_until_finish() {
    let mut st = LithoRunnerState::new();
    assert_eq!(st.begin(), Ok(()));
    st.mark_started(s("/tmp/flag"));
    assert!(st.begin().is_err());
    assert_eq!(cancel_litho_operation(&mut st), Ok(Some(s("/tmp/flag"))));
    assert!(st.begin().is_err());
    assert!(st.running);
    assert_eq!(st.cancel_file, Some(s("/tmp/flag")));
    let (cancelled, flag) = st.finish();
    assert!(cancelled);
    assert_eq!(flag, Some(s("/tmp/flag")));
    assert!(!st.running && st.cancel_file.is_none() && !st.cancel_requested);
    let events = completion_events(Some(1), cancelled, Platform::Linux);
    assert_eq!(events, vec![done(false, true)]);
}

#[test]
fn cancel_without_flag_file_fails_but_is_recorded() {
    let mut st = LithoRunnerState { running: true, cancel_requested: false, cancel_file: None };
    assert_eq!(cancel_litho_operation(&mut st), Err(s("Cancel flag file is not available.")));
    assert!(st.cancel_requested);
}

#[test]
fn completion_events_for_each_exit() {
    assert_eq!(completion_events(Some(0), true, Platform::Linux), vec![done(true, false)]);
    assert_eq!(completion_events(Some(3), true, Platform::Linux), vec![done(false, true)]);
    assert_eq!(completion_events(None, true, Platform::Linux), vec![done(false, true)]);
    assert_eq!(completion_events(Some(3), false, Platform::Linux), vec![done(false, true)]);
    assert_eq!(completion_events(Some(3), false, Platform::Windows), vec![done(false, true)]);
    assert_eq!(
        completion_events(Some(126), false, Platform::Linux),
        vec![error("Authentication was cancelled or denied."), done(false, false)]
    );
    assert_eq!(
        completion_events(Some(1223), false, Platform::Windows),
        vec![error("Authentication was cancelled or denied."), done(false, false)]
    );
    assert_eq!(
        completion_events(Some(1223), false, Platform::Linux),
        vec![error("litho exited with code 1223"), done(false, false)]
    );
    assert_eq!(
        completion_events(None, false, Platform::Linux),
        vec![error("litho process ended without an exit code."), done(false, false)]
    );
}

#[test]
fn exit_messages() {
    assert_eq!(litho_exit_message(-1, Platform::Linux), "litho exited with code -1");
    assert_eq!(
        litho_exit_message(5, Platform::Windows),
        "Flash/clone failed: access denied. Close programs using the target disk and retry."
    );
    assert_eq!(
        litho_exit_message(7, Platform::Windows),
        "litho exited with code 7. Run from a console for detailed litho output."
    );
    assert!(litho_exit_message(1, Platform::Windows).starts_with("Flash/clone failed. The disk"));
}

#[test]
fn spawn_decisions() {
    assert_eq!(spawn_route(Platform::Linux, true), Ok(SpawnRoute::Direct));
    assert_eq!(spawn_route(Platform::Linux, false), Ok(SpawnRoute::Elevated));
    assert_eq!(spawn_route(Platform::Windows, false), Ok(SpawnRoute::RelaunchElevated));
    assert_eq!(
        spawn_route(Platform::Other, false),
        Err(s("Privileged flash/clone is not supported on this platform."))
    );
    assert_eq!(launcher_label(false, "/opt/litho", Platform::Linux), "pkexec");
    assert_eq!(launcher_label(true, "/opt/litho", Platform::Linux), "/opt/litho");
    assert_eq!(
        spawn_error_message(Platform::Linux, "No such file"),
        "Failed to spawn litho: No such file. Is pkexec installed?"
    );
    assert_eq!(spawn_error_message(Platform::Windows, "x"), "Failed to spawn litho: x.");
    assert_eq!(
        elevation_precheck(Platform::Linux, false, false),
        Err(s("No polkit authentication agent found. Start your desktop polkit agent."))
    );
    assert_eq!(elevation_precheck(Platform::Windows, false, true), Ok(()));
    let r = build_run_request(s("flash"), s("/dev/sdb"), s("a.img"), None, None, 8192);
    assert_eq!(r.block_size, 8192);
    assert!(!r.verify);
    let r = build_run_request(s("flash"), s("/dev/sdb"), s("a.img"), Some(512), Some(true), 8192);
    assert_eq!(r.block_size, 512);
    assert!(r.verify);
    assert!(matches!(handoff_status_event(), LithoUiEvent::Status { .. }));
}

// ---------------------------------------------------------------------------
// Privilege
// ---------------------------------------------------------------------------

#[test]
fn privilege_labels() {
    assert!(has_privileged_access(Platform::Linux, true));
    assert!(!has_privileged_access(Platform::Other, true));
    assert_eq!(elevation_method(Platform::Linux), "pkexec");
    assert_eq!(elevation_method(Platform::Windows), "uac");
    assert_eq!(elevation_method(Platform::Other), "unsupported");
    assert_eq!(spawn_mode(Platform::Linux, true), "direct");
    assert_eq!(spawn_mode(Platform::Linux, false), "pkexec");
    assert_eq!(spawn_mode(Platform::Windows, false), "uac-relaunch");
    assert!(elevation_ready(Platform::Windows, false));
    assert!(!elevation_ready(Platform::Linux, false));
    assert!(polkit_agent_ready(&Some(s("/usr/bin/lxpolkit"))));
    assert!(is_running_as_root("0\n"));
    assert!(!is_running_as_root("00"));
    assert!(!is_running_as_root("1000"));
}

#[test]
fn platform_environment_prefers_first_set_variable() {
    let vars = vec![None, Some(s("plasma")), Some(s("gnome"))];
    assert_eq!(platform_environment(Platform::Linux, &vars, ""), "plasma");
    assert_eq!(platform_environment(Platform::Linux, &vec![None, None], ""), "Linux");
    assert_eq!(platform_environment(Platform::Windows, &vars, "Windows 11"), "Windows 11");
    assert_eq!(platform_environment(Platform::Other, &vars, ""), "unknown");
}

#[test]
fn windows_environment_labels() {
    let v = WindowsVersion { major: 10, minor: 0, build: 22631 };
    assert_eq!(environment_label(Some(v), "x86_64"), "Windows 11 10.0 (build 22631, x86_64)");
    let v = WindowsVersion { major: 10, minor: 0, build: 19045 };
    assert_eq!(environment_label(Some(v), "x86"), "Windows 10 10.0 (build 19045, x86)");
    let v = WindowsVersion { major: 6, minor: 1, build: 7601 };
    assert_eq!(environment_label(Some(v), "x86"), "Windows 6.1 (build 7601, x86)");
    assert_eq!(environment_label(None, "aarch64"), "Windows (aarch64)");
}

#[test]
fn windows_argument_quoting() {
    assert!(needs_windows_quoting(""));
    assert!(needs_windows_quoting("C:\\x"));
    assert!(!needs_windows_quoting("--auto-run"));
    let line = windows_argument_string(&strings(&["a b", "plain", "", "x\"y", "C:\\dir"]));
    assert_eq!(line, "\"a b\" plain \"\" \"x\\\"y\" \"C:\\dir\"");
    // Backslashes before a quote, or before the closing quote, are doubled.
    assert_eq!(windows_argument_string(&strings(&["C:\\dir\\"])), "\"C:\\dir\\\\\"");
    assert_eq!(windows_argument_string(&strings(&["a\\\"b"])), "\"a\\\\\\\"b\"");
    assert_eq!(windows_argument_string(&strings(&["a\\b c"])), "\"a\\b c\"");
    assert_eq!(windows_argument_string(&strings(&["x", "y"])), "x y");
}

#[test]
fn elevated_litho_outcomes() {
    assert_eq!(elevated_launch_outcome(1223), Ok(Some(1223)));
    assert_eq!(
        elevated_launch_outcome(2),
        Err(s("UAC elevation failed (Win32 error 2). Try running Lithographer as administrator."))
    );
    assert_eq!(
        elevated_process_outcome(false, 0, Some(0)),
        Err(s("UAC elevation succeeded but no process handle was returned."))
    );
    assert_eq!(
        elevated_process_outcome(true, 258, Some(0)),
        Err(s("Failed waiting for elevated litho process (code 258)."))
    );
    assert_eq!(
        elevated_process_outcome(true, 0, None),
        Err(s("Failed to read litho exit code."))
    );
    assert_eq!(elevated_process_outcome(true, 0, Some(3)), Ok(Some(3)));
    assert_eq!(elevated_process_outcome(true, 0, Some(0xFFFF_FFFF)), Ok(Some(-1)));
}

#[test]
fn uac_relaunch_outcomes() {
    assert_eq!(relaunch_precheck(true), Err(s("Already running with administrator privileges.")));
    assert_eq!(relaunch_precheck(false), Ok(()));
    assert_eq!(relaunch_status_result(42), Ok(()));
    assert_eq!(
        relaunch_status_result(5),
        Err(s(
            "UAC elevation failed (ShellExecute code 5). Try running Lithographer as administrator."
        ))
    );
}

// ---------------------------------------------------------------------------
// Diagnostics
// ---------------------------------------------------------------------------

#[test]
fn greeting() {
    assert_eq!(greet("Ada"), "Hello, Ada! You've been greeted from Rust!");
}

#[test]
fn lines_and_words() {
    assert_eq!(lines("a\r\nb\n\nc"), strings(&["a", "b", "", "c"]));
    assert_eq!(lines("a\n"), strings(&["a"]));
    assert_eq!(lines("x\r"), strings(&["x\r"]));
    assert!(lines("").is_empty());
    assert_eq!(words("  1 \t polkit  /usr/x\n"), strings(&["1", "polkit", "/usr/x"]));
}

#[test]
fn ps_output_parsing() {
    let line = " 812 polkit-gnome-au /usr/libexec/polkit-gnome-authentication-agent-1 --x";
    assert!(ps_line_mentions_polkit_agent(line));
    assert_eq!(
        extract_executable_path_from_ps(line),
        Some(s("/usr/libexec/polkit-gnome-authentication-agent-1"))
    );
    assert!(!ps_line_mentions_polkit_agent(" 1 bash /bin/bash"));
    assert_eq!(extract_executable_path_from_ps("1 polkit agent"), None);
    let out = "1 bash /bin/bash\n2 polkit-agent /usr/lib/polkit-a /usr/lib/polkit-b\n";
    let c = polkit_agent_candidates(Some(out), "XFCE");
    assert_eq!(c[0], "/usr/lib/polkit-a");
    assert_eq!(c[1], "/usr/libexec/xfce-polkit");
    assert_eq!(c.len(), 4);
    let l = linux_agent_candidates(Some(out));
    assert_eq!(l[0], "/usr/lib/polkit-a");
    assert_eq!(l[1], "/usr/lib/polkit-b");
    assert_eq!(l.len(), 7);
    assert_eq!(agent_fallbacks_for_lowered("unknown").len(), 5);
    assert_eq!(agent_fallbacks_for_lowered("ubuntu:gnome")[0], "/usr/libexec/polkit-gnome-authentication-agent-1");
}

#[test]
fn execution_permission() {
    assert!(permits_execution(true, Some(0o755)));
    assert!(!permits_execution(true, Some(0o644)));
    assert!(!permits_execution(false, None));
    assert!(permits_execution(true, None));
}

#[test]
fn spawn_previews() {
    assert_eq!(
        litho_spawn_preview("/opt/litho", false, Platform::Linux),
        "pkexec /opt/litho -o gui <flash|clone> -f <image> -d <device> -b <block_size> --cancel-file <path> [--verify] [--yes]"
    );
    assert!(litho_spawn_preview_unresolved(true, Platform::Linux).starts_with("<litho-sidecar> -o gui"));
    assert!(litho_spawn_preview("C:\\litho.exe", false, Platform::Windows).starts_with("UAC runas"));
    assert_eq!(platform_name(Platform::Other, "freebsd"), "freebsd");
}

#[test]
fn diagnostics_on_windows_and_linux() {
    let probe = StartupProbe {
        platform: Platform::Windows,
        platform_name: s("windows"),
        desktop_environment: s("Windows 11 10.0 (build 22631, x86_64)"),
        current_user: s("ada"),
        privileged: false,
        polkit_agent: None,
        polkit_agent_executable: false,
    };
    let d = perform_startup_checks_with_sidecar(&probe, Some("C:\\litho.exe"));
    assert_eq!(d.elevation_agent, Some(s("UAC (User Account Control)")));
    assert!(d.elevation_ready);
    assert_eq!(d.spawn_mode, "uac-relaunch");
    assert_eq!(d.polkit_agent_path, d.elevation_agent);
    assert_eq!(d.polkit_status, d.elevation_status);
    let probe = StartupProbe {
        platform: Platform::Linux,
        platform_name: s("linux"),
        desktop_environment: s("GNOME"),
        current_user: s("ada"),
        privileged: false,
        polkit_agent: Some(s("/usr/libexec/polkit-gnome-authentication-agent-1")),
        polkit_agent_executable: true,
    };
    let d = perform_startup_checks_with_sidecar(&probe, None);
    assert!(d.elevation_ready && d.polkit_agent_is_executable);
    assert_eq!(d.elevation_status, "Polkit agent present. Elevation deferred until operation is requested.");
    assert_eq!(d.is_root, d.is_elevated);
}

#[test]
fn startup_notes() {
    let n = startup_privilege_note(Platform::Linux, false, false);
    assert!(n.warning);
    assert_eq!(n.lines.len(), 3);
    let n = startup_privilege_note(Platform::Windows, true, false);
    assert!(!n.warning);
    assert_eq!(n.lines, strings(&["Note: App is running elevated. Litho sidecar will be spawned directly."]));
}

#[test]
fn image_dialog() {
    assert!(is_clone_mode("BackUp"));
    assert!(!is_clone_mode("flash"));
    assert_eq!(image_dialog_title(true), "Choose output image file");
    assert_eq!(image_dialog_title(false), "Choose image to flash");
}

#[test]
fn console_rule() {
    assert!(launch_args_want_console(&Some(s("1")), &strings(&["--auto-run"])));
    assert!(!launch_args_want_console(&Some(s("0")), &strings(&["--auto-run"])));
    assert!(!launch_args_want_console(&Some(s("")), &strings(&["--auto-run"])));
    assert!(launch_args_want_console(&None, &strings(&["--verify"])));
}

// ---------------------------------------------------------------------------
// Devices and sidecar
// ---------------------------------------------------------------------------

#[test]
fn size_labels() {
    assert_eq!(size_label_from_sectors(1), SizeLabel::Exact(s("512 B")));
    assert_eq!(
        size_label_from_sectors(2),
        SizeLabel::Scaled { bytes: 1024, divisor: 1_000, unit: s("KB") }
    );
    assert_eq!(
        size_label_from_sectors(125_045_424),
        SizeLabel::Scaled { bytes: 64_023_257_088, divisor: 1_000_000_000, unit: s("GB") }
    );
    assert_eq!(
        size_label_from_sectors(u64::MAX),
        SizeLabel::Scaled { bytes: u64::MAX, divisor: 1_000_000_000_000, unit: s("TB") }
    );
}

#[test]
fn device_names() {
    assert_eq!(device_display_name(" SanDisk ", " Ultra ", "/dev/sdb"), "SanDisk Ultra");
    assert_eq!(device_display_name("", " Ultra", "/dev/sdb"), "Ultra");
    assert_eq!(device_display_name(" ", "", "/dev/sdb"), "sdb");
    assert_eq!(device_display_name("", "", "/dev/"), "Unknown Device");
    let raw = RawDeviceInfo {
        device_name: s("/dev/sdc"),
        vendor_name: s("Kingston "),
        model_name: s(" DataTraveler"),
        removable: 1,
        size: 2,
    };
    let d = storage_device_info(&raw, s("1.0 KB"));
    assert_eq!(d.name, "Kingston DataTraveler");
    assert_eq!(d.model, "DataTraveler");
    assert!(d.removable);
}

fn dev(path: &str, removable: bool, name: &str) -> StorageDeviceInfo {
    StorageDeviceInfo { name: s(name), path: s(path), size: s("1 B"), removable, model: s("") }
}

#[test]
fn devices_sort_removable_first_then_path_stably() {
    let devs = vec![
        dev("/dev/sda", false, "a"),
        dev("/dev/sdc", true, "c"),
        dev("/dev/nvme0n1", false, "n"),
        dev("/dev/sdb", true, "b"),
        dev("/dev/sdb", true, "b2"),
    ];
    let sorted = sort_storage_devices(&devs);
    let names: Vec<&str> = sorted.iter().map(|d| d.name.as_str()).collect();
    assert_eq!(names, vec!["b", "b2", "c", "n", "a"]);
}

#[test]
fn dedupe_keeps_first_occurrences_in_order() {
    let out = dedupe_paths(entries(&["/b", "/a", "/b", "/c", "/a"]));
    let texts: Vec<String> = out.into_iter().map(|e| e.text).collect();
    assert_eq!(texts, strings(&["/b", "/a", "/c"]));
}

#[test]
fn dedupe_compares_components_not_text() {
    let out = dedupe_paths(entries(&["/a/", "/a", "/a/./", "/a/b", "/a//b"]));
    let texts: Vec<String> = out.into_iter().map(|e| e.text).collect();
    assert_eq!(texts, strings(&["/a/", "/a/b"]));
}

#[test]
fn sidecar_candidate_order_on_linux() {
    let resolved = strings(&["/res/binaries/litho-x86_64-unknown-linux-gnu"]);
    let c = sidecar_candidates(
        Some("/tmp/app"),
        Some("/res/"),
        &resolved,
        Some("/opt/l"),
        Some("/opt"),
        "/src/tauri",
        "x86_64-unknown-linux-gnu",
    );
    assert_eq!(
        c,
        strings(&[
            "/tmp/app/usr/bin/litho",
            "/tmp/app/usr/bin/litho-x86_64-unknown-linux-gnu",
            "/tmp/app/usr/lib/lithographer/binaries/litho-x86_64-unknown-linux-gnu",
            "/res/litho",
            "/res/litho-x86_64-unknown-linux-gnu",
            "/res/binaries/litho-x86_64-unknown-linux-gnu",
            "/res/binaries/litho-x86_64-unknown-linux-gnu",
            "/opt/l/litho",
            "/opt/l/litho-x86_64-unknown-linux-gnu",
            "/opt/l/binaries/litho-x86_64-unknown-linux-gnu",
            "/opt/bin/litho",
            "/src/tauri/binaries/litho-x86_64-unknown-linux-gnu",
        ])
    );
    let few = sidecar_candidates(None, None, &Vec::new(), None, None, "/m", "t");
    assert_eq!(few, strings(&["/m/binaries/litho-t"]));
}

#[test]
fn sidecar_candidates_join_like_std() {
    // Joining goes through `Path::join`: no separator is added after a
    // trailing one or to an empty base.
    let c = sidecar_candidates(None, Some("/res//"), &Vec::new(), None, None, "/m/", "t");
    assert_eq!(
        c,
        strings(&["/res//litho", "/res//litho-t", "/res//binaries/litho-t", "/m/binaries/litho-t"])
    );
    let c = sidecar_candidates(None, None, &Vec::new(), Some(""), Some("/"), "m", "t");
    assert_eq!(
        c,
        strings(&["litho", "litho-t", "binaries/litho-t", "/bin/litho", "m/binaries/litho-t"])
    );
}

#[test]
fn sidecar_helpers() {
    assert_eq!(
        sidecar_not_found_message(&strings(&["/x/litho", "/y/litho"])),
        "litho sidecar not found. Searched:\n  - /x/litho\n  - /y/litho\nRebuild with `npm run prepare-sidecar && npm run tauri:build`."
    );
    assert!(needs_pkexec_staging(false, "/tmp/.mount_abc/usr/bin/litho"));
    assert!(needs_pkexec_staging(true, "/usr/bin/litho"));
    assert!(!needs_pkexec_staging(false, "/usr/bin/litho"));
    assert_eq!(staged_sidecar_name(4242), "lithographer-litho-4242");
}
