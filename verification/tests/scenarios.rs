use lithographer::diagnostics::{perform_startup_checks, StartupProbe};
use lithographer::litho_output::{parse_litho_line, LithoUiEvent};
use lithographer::litho_sidecar::{dedupe_paths, PathEntry};
use lithographer::privilege::{
    first_present_value, has_privileged_access, is_running_as_root, platform_environment,
    Platform,
};

fn unset_vars() -> Vec<Option<String>> {
    vec![None, None, None]
}

fn sample_probe() -> StartupProbe {
    let privileged = has_privileged_access(Platform::Linux, is_running_as_root("1000\n"));
    StartupProbe {
        platform: Platform::Linux,
        platform_name: String::from("linux"),
        desktop_environment: platform_environment(Platform::Linux, &unset_vars(), ""),
        current_user: first_present_value(&unset_vars(), "unknown"),
        privileged,
        polkit_agent: None,
        polkit_agent_executable: false,
    }
}

#[test]
fn test_startup_diagnostics_runs_without_panic() {
    let diag = perform_startup_checks(&sample_probe());

    // Basic sanity: we always get some strings
    assert!(!diag.desktop_environment.is_empty());
    assert!(!diag.current_user.is_empty());
    assert!(!diag.polkit_status.is_empty());

    // Print for visibility when running with --nocapture
    println!("=== TEST: Startup Diagnostics ===");
    println!("DE: {}", diag.desktop_environment);
    println!("User: {}", diag.current_user);
    println!("Root: {}", diag.is_root);
    println!("Polkit agent: {:?}", diag.polkit_agent_path);
    println!("Executable: {}", diag.polkit_agent_is_executable);
    println!("Polkit status: {}", diag.polkit_status);
    println!("=================================");
}

#[test]
fn test_desktop_env_detection() {
    let de = first_present_value(&unset_vars(), "unknown");
    println!("Detected desktop environment: {}", de);
    // Should not be empty
    assert!(!de.is_empty());
}

#[test]
fn set_but_empty_variables_fall_back() {
    let empty_then_set = vec![Some(String::new()), None, Some(String::from("x"))];
    assert_eq!(first_present_value(&empty_then_set, "unknown"), "x");
    let all_empty = vec![Some(String::new()), Some(String::new()), None];
    assert_eq!(first_present_value(&all_empty, "unknown"), "unknown");
    assert_eq!(platform_environment(Platform::Linux, &all_empty, ""), "Linux");

    let probe = StartupProbe {
        desktop_environment: platform_environment(Platform::Linux, &all_empty, ""),
        current_user: first_present_value(&vec![Some(String::new())], "unknown"),
        ..sample_probe()
    };
    let diag = perform_startup_checks(&probe);
    assert!(!diag.desktop_environment.is_empty());
    assert!(!diag.current_user.is_empty());
    assert_eq!(diag.current_user, "unknown");
}

#[test]
fn test_root_detection() {
    let root = is_running_as_root("1000\n");
    println!("is_root() = {}", root);
    // In normal test runs we are not root
    // (this is informational)
}

#[test]
fn parse_progress_line() {
    let event = parse_litho_line(
        "stdout",
        "@progress phase=writing pct=45.2 bytes=1234567 total=536870912",
    );
    match event {
        LithoUiEvent::Progress { phase, pct, bytes, total, .. } => {
            assert_eq!(phase.as_deref(), Some("writing"));
            let pct: f64 = pct.unwrap().parse().unwrap();
            assert!((pct - 45.2).abs() < f64::EPSILON);
            assert_eq!(bytes, Some(1_234_567));
            assert_eq!(total, Some(536_870_912));
        }
        other => panic!("unexpected event: {other:?}"),
    }
}

#[test]
fn parse_error_line() {
    let event = parse_litho_line("stderr", r#"@error msg="Permission denied""#);
    match event {
        LithoUiEvent::Error { message } => assert_eq!(message, "Permission denied"),
        other => panic!("unexpected event: {other:?}"),
    }
}

#[test]
fn parse_done_ok() {
    let event = parse_litho_line("stdout", "@done ok");
    match event {
        LithoUiEvent::Done { success, .. } => assert!(success),
        other => panic!("unexpected event: {other:?}"),
    }
}

fn entry(p: &str) -> PathEntry {
    let components = std::path::Path::new(p)
        .components()
        .map(|c| c.as_os_str().to_string_lossy().into_owned())
        .collect();
    PathEntry { text: String::from(p), components }
}

#[test]
fn dedupe_paths_removes_duplicates() {
    let paths = dedupe_paths(vec![entry("/a"), entry("/a"), entry("/b")]);
    assert_eq!(paths.len(), 2);
}
