//! The flash/clone operation runner: the request, the litho command line,
//! the runner's state machine (start, cancel, finish) and the events that
//! report how an operation ended.
use vstd::prelude::*;
use crate::litho_output::{LithoUiEvent, UiEvent};
use crate::privilege::{elevation_method, elevation_method_spec, Platform};
use crate::text::{
    ascii_lowercase_seq, decimal_chars, is_ascii_seq, lowercase_of, owned, push_signed_decimal,
    push_str, signed_decimal_chars, str_eq, to_lowercase, u64_to_string, views,
};

verus! {

/// Exit code with which litho reports a cancelled operation.
pub const LITHO_CANCEL_EXIT_CODE: i32 = 3;

/// Exit code `pkexec` returns when authentication is dismissed or denied.
pub const AUTH_DENIED_EXIT: i32 = 126;

/// Win32 `ERROR_CANCELLED`, returned when the user denies a UAC prompt.
pub const UAC_CANCELLED_EXIT: i32 = 1223;

/// One flash or clone the user asked for.
#[derive(Clone, Debug)]
pub struct LithoRunRequest {
    pub mode: String,
    pub device: String,
    pub image: String,
    pub block_size: usize,
    pub verify: bool,
    /// User confirmed automatic unmount of volumes on the target disk (`--yes` for litho).
    pub auto_unmount: bool,
}

/// Whether a lower-cased mode names a clone ("clone" or its alias "backup").
pub open spec fn is_clone_word(lower: Seq<char>) -> bool {
    lower == "clone"@ || lower == "backup"@
}

/// The litho subcommand for a mode whose lower-case form is `lower`.
pub open spec fn subcommand_spec(lower: Seq<char>) -> Seq<char> {
    if is_clone_word(lower) {
        "clone"@
    } else {
        "flash"@
    }
}

/// The litho subcommand for a mode already in lower case.
pub fn subcommand_for_lowered(lower: &str) -> (r: &'static str)
    ensures
        r@ == subcommand_spec(lower@),
{
    if str_eq(lower, "clone") || str_eq(lower, "backup") {
        "clone"
    } else {
        "flash"
    }
}

/// The litho subcommand for a mode: "clone" for `clone`/`backup` in any
/// letter case, "flash" for anything else.
pub fn litho_subcommand(mode: &str) -> (r: &'static str)
    ensures
        r@ == subcommand_spec(lowercase_of(mode@)),
        is_ascii_seq(mode@) ==> r@ == subcommand_spec(ascii_lowercase_seq(mode@)),
{
    let lower = to_lowercase(mode);
    subcommand_for_lowered(lower.as_str())
}

/// The litho command line (after the program) for a request whose mode
/// lower-cases to `lower`, with cancel flag file `cancel_file`.
pub open spec fn litho_args_spec(
    lower: Seq<char>,
    image: Seq<char>,
    device: Seq<char>,
    block_size: usize,
    verify: bool,
    cancel_file: Seq<char>,
) -> Seq<Seq<char>> {
    let sub = subcommand_spec(lower);
    let base = seq![
        "-o"@,
        "gui"@,
        sub,
        "-f"@,
        image,
        "-d"@,
        device,
        "-b"@,
        decimal_chars(block_size as nat),
        "--cancel-file"@,
        cancel_file,
    ];
    let with_verify = if sub == "flash"@ && verify {
        base.push("--verify"@)
    } else {
        base
    };
    with_verify.push("--yes"@)
}

/// The arguments with which litho runs a request in GUI protocol mode.
/// `--yes` is always passed: litho is only started after the user confirmed
/// the operation, and may then unmount volumes on the target disk.
pub fn litho_gui_args(request: &LithoRunRequest, cancel_file: &str) -> (r: Vec<String>)
    ensures
        views(r@) == litho_args_spec(
            lowercase_of(request.mode@),
            request.image@,
            request.device@,
            request.block_size,
            request.verify,
            cancel_file@,
        ),
{
    let sub = litho_subcommand(request.mode.as_str());
    let mut args: Vec<String> = Vec::new();
    args.push(owned("-o"));
    args.push(owned("gui"));
    args.push(owned(sub));
    args.push(owned("-f"));
    args.push(request.image.clone());
    args.push(owned("-d"));
    args.push(request.device.clone());
    args.push(owned("-b"));
    args.push(u64_to_string(request.block_size as u64));
    args.push(owned("--cancel-file"));
    args.push(owned(cancel_file));
    let flash = str_eq(sub, "flash");
    if flash && request.verify {
        args.push(owned("--verify"));
    }
    args.push(owned("--yes"));
    assert(views(args@) =~= litho_args_spec(
        lowercase_of(request.mode@),
        request.image@,
        request.device@,
        request.block_size,
        request.verify,
        cancel_file@,
    ));
    args
}

/// The command line with which Lithographer relaunches itself elevated to run
/// a request: every selection is handed over, with `--auto-run`.
pub open spec fn elevation_args_spec(
    mode: Seq<char>,
    device: Seq<char>,
    image: Seq<char>,
    block_size: usize,
    verify: bool,
    auto_unmount: bool,
) -> Seq<Seq<char>> {
    let base = seq![
        "--mode"@,
        mode,
        "--device"@,
        device,
        "--image"@,
        image,
        "--block-size"@,
        decimal_chars(block_size as nat),
        "--auto-run"@,
    ];
    let with_verify = if verify {
        base.push("--verify"@)
    } else {
        base
    };
    if auto_unmount {
        with_verify.push("--auto-unmount"@)
    } else {
        with_verify
    }
}

/// Arguments for the elevated Lithographer that takes over a request.
pub fn lithographer_elevation_cli_args(request: &LithoRunRequest) -> (r: Vec<String>)
    ensures
        views(r@) == elevation_args_spec(
            request.mode@,
            request.device@,
            request.image@,
            request.block_size,
            request.verify,
            request.auto_unmount,
        ),
{
    let mut args: Vec<String> = Vec::new();
    args.push(owned("--mode"));
    args.push(request.mode.clone());
    args.push(owned("--device"));
    args.push(request.device.clone());
    args.push(owned("--image"));
    args.push(request.image.clone());
    args.push(owned("--block-size"));
    args.push(u64_to_string(request.block_size as u64));
    args.push(owned("--auto-run"));
    if request.verify {
        args.push(owned("--verify"));
    }
    if request.auto_unmount {
        args.push(owned("--auto-unmount"));
    }
    assert(views(args@) =~= elevation_args_spec(
        request.mode@,
        request.device@,
        request.image@,
        request.block_size,
        request.verify,
        request.auto_unmount,
    ));
    args
}

// ---------------------------------------------------------------------------
// Runner state
// ---------------------------------------------------------------------------
/// What the runner knows of the current operation (the child process and its
/// pipes are held beside it by the host).
#[derive(Debug, Clone)]
pub struct LithoRunnerState {
    pub running: bool,
    pub cancel_requested: bool,
    /// The cancel flag file handed to litho (`--cancel-file`).
    pub cancel_file: Option<String>,
}

/// What `begin` does: refuses while an operation runs, else forgets any
/// earlier cancel request.
pub open spec fn begin_post(
    before: LithoRunnerState,
    after: LithoRunnerState,
    r: Result<(), String>,
) -> bool {
    if before.running {
        r matches Err(m) && m@ == "An operation is already in progress."@ && after == before
    } else {
        r is Ok && after == LithoRunnerState { cancel_requested: false, ..before }
    }
}

/// What `mark_started` does: the operation runs with `cancel_file`.
pub open spec fn started_post(before: LithoRunnerState, after: LithoRunnerState, cancel_file: String) -> bool {
    after == LithoRunnerState { running: true, cancel_file: Some(cancel_file), ..before }
}

/// What `finish` does: reports the cancel request and the flag file, and
/// leaves the runner idle.
pub open spec fn finish_post(
    before: LithoRunnerState,
    after: LithoRunnerState,
    r: (bool, Option<String>),
) -> bool {
    &&& r.0 == before.cancel_requested
    &&& r.1 == before.cancel_file
    &&& after == LithoRunnerState { running: false, cancel_requested: false, cancel_file: None }
}

/// What `cancel_litho_operation` does: nothing when idle; otherwise it
/// records the request and hands out the flag file, failing without one.
pub open spec fn cancel_post(
    before: LithoRunnerState,
    after: LithoRunnerState,
    r: Result<Option<String>, String>,
) -> bool {
    if !before.running {
        r == Ok::<Option<String>, String>(None) && after == before
    } else {
        &&& after == LithoRunnerState { cancel_requested: true, ..before }
        &&& match before.cancel_file {
            Some(p) => r == Ok::<Option<String>, String>(Some(p)),
            None => (r matches Err(m) && m@ == "Cancel flag file is not available."@),
        }
    }
}

impl LithoRunnerState {
    /// No operation, no cancel pending.
    pub fn new() -> (r: LithoRunnerState)
        ensures
            r == (LithoRunnerState { running: false, cancel_requested: false, cancel_file: None }),
    {
        LithoRunnerState { running: false, cancel_requested: false, cancel_file: None }
    }

    /// Admits a new operation: refused while one runs; otherwise any earlier
    /// cancel request is forgotten.
    pub fn begin(&mut self) -> (r: Result<(), String>)
        ensures
            begin_post(*old(self), *final(self), r),
    {
        if self.running {
            return Err(owned("An operation is already in progress."));
        }
        self.cancel_requested = false;
        Ok(())
    }

    /// Records that litho was spawned with `cancel_file` as its flag file.
    pub fn mark_started(&mut self, cancel_file: String)
        ensures
            started_post(*old(self), *final(self), cancel_file),
    {
        self.running = true;
        self.cancel_file = Some(cancel_file);
    }

    /// Ends the operation: returns whether a cancel was requested and the
    /// cancel flag file to remove; the runner is then idle.
    pub fn finish(&mut self) -> (r: (bool, Option<String>))
        ensures
            finish_post(*old(self), *final(self), r),
    {
        let cancel_requested = self.cancel_requested;
        let cancel_file = self.cancel_file.take();
        self.running = false;
        self.cancel_requested = false;
        (cancel_requested, cancel_file)
    }
}

/// Requests cancellation of the running operation. When nothing runs this is
/// a no-op (`Ok(None)`). Otherwise the cancel request is recorded and the
/// flag file into which the host writes the cancel line is returned; without
/// one the request fails.
pub fn cancel_litho_operation(state: &mut LithoRunnerState) -> (r: Result<Option<String>, String>)
    ensures
        cancel_post(*old(state), *final(state), r),
{
    if !state.running {
        return Ok(None);
    }
    state.cancel_requested = true;
    match &state.cancel_file {
        Some(p) => Ok(Some(p.clone())),
        None => Err(owned("Cancel flag file is not available.")),
    }
}

// ---------------------------------------------------------------------------
// How an operation ended
// ---------------------------------------------------------------------------
/// The message for a litho exit code that is neither success nor cancel.
pub open spec fn exit_message_spec(code: i32, platform: Platform) -> Seq<char> {
    if platform == Platform::Windows {
        if code == 1 {
            "Flash/clone failed. The disk may be in use (close File Explorer on that drive), or access was denied. Run Lithographer from a console (or set LITHOGRAPHER_CONSOLE=1) for litho error details."@
        } else if code == 5 {
            "Flash/clone failed: access denied. Close programs using the target disk and retry."@
        } else {
            "litho exited with code "@ + signed_decimal_chars(code as int)
                + ". Run from a console for detailed litho output."@
        }
    } else {
        "litho exited with code "@ + signed_decimal_chars(code as int)
    }
}

/// The message for a litho exit code that is neither success nor cancel.
pub fn litho_exit_message(code: i32, platform: Platform) -> (r: String)
    ensures
        r@ == exit_message_spec(code, platform),
{
    match platform {
        Platform::Windows => {
            if code == 1 {
                owned(
                    "Flash/clone failed. The disk may be in use (close File Explorer on that drive), or access was denied. Run Lithographer from a console (or set LITHOGRAPHER_CONSOLE=1) for litho error details.",
                )
            } else if code == 5 {
                owned(
                    "Flash/clone failed: access denied. Close programs using the target disk and retry.",
                )
            } else {
                let mut m = owned("litho exited with code ");
                push_signed_decimal(&mut m, code as i64);
                push_str(&mut m, ". Run from a console for detailed litho output.");
                m
            }
        },
        _ => {
            let mut m = owned("litho exited with code ");
            push_signed_decimal(&mut m, code as i64);
            m
        },
    }
}

/// The events that report the end of an operation: litho's exit code
/// (`None` when it ended without one), whether the user asked to cancel, and
/// the platform. An operation that did not succeed counts as cancelled when
/// the user asked to cancel or litho exited with its cancel code. Every
/// report ends with exactly one `Done`.
pub open spec fn completion_events_spec(
    exit_code: Option<i32>,
    cancel_requested: bool,
    platform: Platform,
) -> Seq<UiEvent> {
    let done_failed = UiEvent::Done { success: false, cancelled: false };
    if exit_code == Some(0i32) {
        seq![UiEvent::Done { success: true, cancelled: false }]
    } else if cancel_requested || exit_code == Some(LITHO_CANCEL_EXIT_CODE) {
        seq![UiEvent::Done { success: false, cancelled: true }]
    } else {
        match exit_code {
            Some(code) => if code == AUTH_DENIED_EXIT || (platform == Platform::Windows && code
                == UAC_CANCELLED_EXIT) {
                seq![
                    UiEvent::Error { message: "Authentication was cancelled or denied."@ },
                    done_failed,
                ]
            } else {
                seq![UiEvent::Error { message: exit_message_spec(code, platform) }, done_failed]
            },
            None => seq![
                UiEvent::Error { message: "litho process ended without an exit code."@ },
                done_failed,
            ],
        }
    }
}

/// The views of a sequence of events.
pub open spec fn event_views(v: Seq<LithoUiEvent>) -> Seq<UiEvent> {
    v.map_values(|e: LithoUiEvent| e@)
}

fn failure_events(message: String) -> (r: Vec<LithoUiEvent>)
    ensures
        event_views(r@) == seq![
            UiEvent::Error { message: message@ },
            UiEvent::Done { success: false, cancelled: false },
        ],
{
    let mut v: Vec<LithoUiEvent> = Vec::new();
    v.push(LithoUiEvent::Error { message });
    v.push(LithoUiEvent::Done { success: false, cancelled: false });
    assert(event_views(v@) =~= seq![
        UiEvent::Error { message: message@ },
        UiEvent::Done { success: false, cancelled: false },
    ]);
    v
}

/// The events that report the end of an operation.
pub fn completion_events(exit_code: Option<i32>, cancel_requested: bool, platform: Platform) -> (r:
    Vec<LithoUiEvent>)
    ensures
        event_views(r@) == completion_events_spec(exit_code, cancel_requested, platform),
{
    let mut v: Vec<LithoUiEvent> = Vec::new();
    match exit_code {
        Some(0) => {
            v.push(LithoUiEvent::Done { success: true, cancelled: false });
            assert(event_views(v@) =~= completion_events_spec(
                exit_code,
                cancel_requested,
                platform,
            ));
            v
        },
        _ if cancel_requested || exit_code == Some(LITHO_CANCEL_EXIT_CODE) => {
            v.push(LithoUiEvent::Done { success: false, cancelled: true });
            assert(event_views(v@) =~= completion_events_spec(
                exit_code,
                cancel_requested,
                platform,
            ));
            v
        },
        Some(code) => {
            let denied = code == AUTH_DENIED_EXIT || (platform == Platform::Windows && code
                == UAC_CANCELLED_EXIT);
            if denied {
                failure_events(owned("Authentication was cancelled or denied."))
            } else {
                failure_events(litho_exit_message(code, platform))
            }
        },
        None => failure_events(owned("litho process ended without an exit code.")),
    }
}

// ---------------------------------------------------------------------------
// Launching
// ---------------------------------------------------------------------------
/// How litho is started for an operation.
#[derive(PartialEq, Eq, Structural, Clone, Copy, Debug)]
pub enum SpawnRoute {
    /// The process is privileged: litho is spawned directly.
    Direct,
    /// Linux without root: litho is spawned through the elevation backend.
    Elevated,
    /// Windows without elevation: Lithographer relaunches itself through UAC
    /// and the elevated instance runs the request.
    RelaunchElevated,
}

/// How litho is started, from the platform and whether the process is
/// privileged; elsewhere than Linux and Windows an unprivileged process
/// cannot run operations.
pub fn spawn_route(platform: Platform, privileged: bool) -> (r: Result<SpawnRoute, String>)
    ensures
        privileged ==> r == Ok::<SpawnRoute, String>(SpawnRoute::Direct),
        !privileged && platform == Platform::Linux ==> r == Ok::<SpawnRoute, String>(
            SpawnRoute::Elevated,
        ),
        !privileged && platform == Platform::Windows ==> r == Ok::<SpawnRoute, String>(
            SpawnRoute::RelaunchElevated,
        ),
        !privileged && platform == Platform::Other ==> (r matches Err(m) && m@
            == "Privileged flash/clone is not supported on this platform."@),
{
    if privileged {
        return Ok(SpawnRoute::Direct);
    }
    match platform {
        Platform::Linux => Ok(SpawnRoute::Elevated),
        Platform::Windows => Ok(SpawnRoute::RelaunchElevated),
        Platform::Other => Err(owned("Privileged flash/clone is not supported on this platform.")),
    }
}

/// The launcher named in the spawn log line: the litho path when spawned
/// directly, else the elevation backend.
pub fn launcher_label(privileged: bool, litho_path: &str, platform: Platform) -> (r: String)
    ensures
        r@ == if privileged {
            litho_path@
        } else {
            elevation_method_spec(platform)
        },
{
    if privileged {
        owned(litho_path)
    } else {
        owned(elevation_method(platform))
    }
}

/// The message when spawning litho failed with `error`.
pub fn spawn_error_message(platform: Platform, error: &str) -> (r: String)
    ensures
        r@ == if platform == Platform::Windows {
            "Failed to spawn litho: "@ + error@ + "."@
        } else {
            "Failed to spawn litho: "@ + error@ + ". Is pkexec installed?"@
        },
{
    let mut m = owned("Failed to spawn litho: ");
    push_str(&mut m, error);
    match platform {
        Platform::Windows => push_str(&mut m, "."),
        _ => push_str(&mut m, ". Is pkexec installed?"),
    }
    m
}

/// Whether an operation may start: the process is privileged, or it can ask
/// for elevation (an executable polkit agent, or UAC on Windows).
pub fn elevation_precheck(platform: Platform, is_root: bool, agent_executable: bool) -> (r: Result<
    (),
    String,
>)
    ensures
        r is Ok <==> (is_root || agent_executable),
        r matches Err(m) ==> m@ == if platform == Platform::Windows {
            "Administrator elevation (UAC) is not available on this system."@
        } else {
            "No polkit authentication agent found. Start your desktop polkit agent."@
        },
{
    if !is_root && !agent_executable {
        match platform {
            Platform::Windows => {
                return Err(owned("Administrator elevation (UAC) is not available on this system."));
            },
            _ => {
                return Err(
                    owned("No polkit authentication agent found. Start your desktop polkit agent."),
                );
            },
        }
    }
    Ok(())
}

/// The request for a flash/clone command: the block size defaults to
/// `optimal_block_size` (the largest buffer suited to the device) and
/// verification defaults to off.
pub fn build_run_request(
    mode: String,
    device: String,
    image: String,
    block_size: Option<usize>,
    verify: Option<bool>,
    optimal_block_size: usize,
) -> (r: LithoRunRequest)
    ensures
        r.mode == mode,
        r.device == device,
        r.image == image,
        r.block_size == match block_size {
            Some(b) => b,
            None => optimal_block_size,
        },
        r.verify == match verify {
            Some(v) => v,
            None => false,
        },
        !r.auto_unmount,
{
    let block_size = match block_size {
        Some(b) => b,
        None => optimal_block_size,
    };
    let verify = match verify {
        Some(v) => v,
        None => false,
    };
    LithoRunRequest { mode, device, image, block_size, verify, auto_unmount: false }
}

/// The event shown while the UAC prompt for the elevated relaunch is open.
pub fn handoff_status_event() -> (r: LithoUiEvent)
    ensures
        r@ == (UiEvent::Status {
            phase: Some("preparing"@),
            message: Some(
                "Approve UAC to open an elevated Lithographer window. Progress will stream there."@,
            ),
        }),
{
    LithoUiEvent::Status {
        phase: Some(owned("preparing")),
        message: Some(
            owned(
                "Approve UAC to open an elevated Lithographer window. Progress will stream there.",
            ),
        ),
    }
}

// ---------------------------------------------------------------------------
// Laws
// ---------------------------------------------------------------------------
/// Every end-of-operation report closes with exactly one `Done` event; it
/// reports success exactly when litho exited with 0, and cancellation exactly
/// when litho did not succeed and either the user asked to cancel or litho
/// exited with its cancel code; one error event precedes it exactly when the
/// operation failed otherwise.
pub proof fn lemma_completion_ends_with_done(
    exit_code: Option<i32>,
    cancel_requested: bool,
    platform: Platform,
)
    ensures
        ({
            let ev = completion_events_spec(exit_code, cancel_requested, platform);
            &&& ev.len() >= 1
            &&& ev.last() matches UiEvent::Done { success, cancelled } && success == (exit_code
                == Some(0i32)) && cancelled == (exit_code != Some(0i32) && (cancel_requested
                || exit_code == Some(LITHO_CANCEL_EXIT_CODE)))
            &&& (ev.len() == 2) == (exit_code != Some(0i32) && !cancel_requested && exit_code
                != Some(LITHO_CANCEL_EXIT_CODE))
            &&& ev.len() == 2 ==> ev[0] is Error
            &&& forall|i: int| 0 <= i < ev.len() - 1 ==> !(ev[i] is Done)
        }),
{
}

/// A cancel requested while an operation runs is what the end of that
/// operation reports, unless litho had already succeeded: the flag file the
/// host wrote is the one handed back for removal.
pub proof fn lemma_cancel_is_reported(
    s0: LithoRunnerState,
    s1: LithoRunnerState,
    cancel_result: Result<Option<String>, String>,
    s2: LithoRunnerState,
    finished: (bool, Option<String>),
    exit_code: Option<i32>,
    platform: Platform,
)
    requires
        s0.running,
        s0.cancel_file is Some,
        cancel_post(s0, s1, cancel_result),
        finish_post(s1, s2, finished),
    ensures
        cancel_result == Ok::<Option<String>, String>(s0.cancel_file),
        finished.1 == s0.cancel_file,
        exit_code != Some(0i32) ==> completion_events_spec(exit_code, finished.0, platform) == seq![
            UiEvent::Done { success: false, cancelled: true },
        ],
{
}

/// After an operation has finished, a new one is admitted, and no cancel
/// request carries over to it.
pub proof fn lemma_finish_then_begin(
    s0: LithoRunnerState,
    s1: LithoRunnerState,
    finished: (bool, Option<String>),
    s2: LithoRunnerState,
    begun: Result<(), String>,
)
    requires
        finish_post(s0, s1, finished),
        begin_post(s1, s2, begun),
    ensures
        begun is Ok,
        !s2.running,
        !s2.cancel_requested,
{
}

/// Once an operation is marked started, a request to start another is
/// refused and leaves the running operation untouched. (Between `begin` and
/// `mark_started` the runner is not yet busy.)
pub proof fn lemma_one_operation_at_a_time(
    s0: LithoRunnerState,
    s1: LithoRunnerState,
    cancel_file: String,
    s2: LithoRunnerState,
    begun: Result<(), String>,
)
    requires
        started_post(s0, s1, cancel_file),
        begin_post(s1, s2, begun),
    ensures
        begun is Err,
        s2 == s1,
{
}

/// A cancel request that changes `before` into `after`.
pub open spec fn cancel_step(before: LithoRunnerState, after: LithoRunnerState) -> bool {
    exists|r: Result<Option<String>, String>| cancel_post(before, after, r)
}

/// What may happen to the runner while litho runs: a cancel request, or a
/// request to start another operation.
pub open spec fn runner_step(before: LithoRunnerState, after: LithoRunnerState) -> bool {
    ||| cancel_step(before, after)
    ||| exists|r: Result<(), String>| begin_post(before, after, r)
}

/// Whether some step of `trace` is a cancel request.
pub open spec fn cancel_seen(trace: Seq<LithoRunnerState>) -> bool {
    exists|i: int| 0 <= i < trace.len() - 1 && #[trigger] cancel_step(trace[i], trace[i + 1])
}

/// Each consecutive pair of `trace` is a runner step.
pub open spec fn steps_hold(trace: Seq<LithoRunnerState>) -> bool {
    forall|i: int| 0 <= i < trace.len() - 1 ==> #[trigger] runner_step(trace[i], trace[i + 1])
}

proof fn lemma_steps_while_running(trace: Seq<LithoRunnerState>, cancel_file: String)
    requires
        trace.len() >= 1,
        trace[0].running,
        trace[0].cancel_file == Some(cancel_file),
        steps_hold(trace),
    ensures
        forall|i: int|
            0 <= i < trace.len() ==> #[trigger] trace[i].running && trace[i].cancel_file == Some(
                cancel_file,
            ),
        trace.last().cancel_requested == (trace[0].cancel_requested || cancel_seen(trace)),
    decreases trace.len(),
{
    if trace.len() > 1 {
        let p = trace.drop_last();
        let n = trace.len() - 1;
        assert forall|i: int| 0 <= i < p.len() - 1 implies #[trigger] runner_step(p[i], p[i + 1]) by {
            assert(runner_step(trace[i], trace[i + 1]));
        }
        lemma_steps_while_running(p, cancel_file);
        let j = n - 1;
        assert(p[j] == trace[j]);
        assert(runner_step(trace[j], trace[j + 1]));
        assert(trace[n].running && trace[n].cancel_file == Some(cancel_file));
        if cancel_step(trace[j], trace[j + 1]) {
            assert(cancel_seen(trace));
        } else {
            assert(trace[n] == trace[n - 1]);
            if cancel_seen(p) {
                let i = choose|i: int| 0 <= i < p.len() - 1 && #[trigger] cancel_step(p[i], p[i + 1]);
                assert(cancel_step(trace[i], trace[i + 1]));
            }
            if cancel_seen(trace) {
                let i = choose|i: int|
                    0 <= i < trace.len() - 1 && #[trigger] cancel_step(trace[i], trace[i + 1]);
                assert(i < n - 1);
                assert(cancel_step(p[i], p[i + 1]));
            }
        }
        assert forall|i: int| 0 <= i < trace.len() implies #[trigger] trace[i].running
            && trace[i].cancel_file == Some(cancel_file) by {
            if i < n {
                assert(trace[i] == p[i]);
            }
        }
    }
}

/// One operation from its start to its end. While litho runs, whatever
/// cancel requests and further start requests come in, the runner stays busy
/// with the same cancel flag file. When litho exits, finishing hands back
/// that flag file for removal, leaves the runner idle and reports a cancel
/// exactly when one came in; the report of the end then carries exactly one
/// `Done`, as its last event.
pub proof fn lemma_whole_run(
    idle: LithoRunnerState,
    begun: Result<(), String>,
    admitted: LithoRunnerState,
    cancel_file: String,
    trace: Seq<LithoRunnerState>,
    finished: (bool, Option<String>),
    ended: LithoRunnerState,
    exit_code: Option<i32>,
    platform: Platform,
)
    requires
        begin_post(idle, admitted, begun),
        begun is Ok,
        trace.len() >= 1,
        started_post(admitted, trace[0], cancel_file),
        steps_hold(trace),
        finish_post(trace.last(), ended, finished),
    ensures
        forall|i: int|
            0 <= i < trace.len() ==> #[trigger] trace[i].running && trace[i].cancel_file == Some(
                cancel_file,
            ),
        finished.1 == Some(cancel_file),
        ended == (LithoRunnerState { running: false, cancel_requested: false, cancel_file: None }),
        finished.0 == cancel_seen(trace),
        ({
            let ev = completion_events_spec(exit_code, finished.0, platform);
            &&& ev.len() >= 1
            &&& ev.last() is Done
            &&& forall|i: int| 0 <= i < ev.len() - 1 ==> !(ev[i] is Done)
        }),
{
    assert(trace[0].running && trace[0].cancel_file == Some(cancel_file));
    lemma_steps_while_running(trace, cancel_file);
    let last = trace.len() - 1;
    assert(trace[last].running && trace[last].cancel_file == Some(cancel_file));
    lemma_completion_ends_with_done(exit_code, finished.0, platform);
}

/// litho always gets the cancel flag file (cancel must work through
/// elevation) and `--yes`; `--verify` only for a flash that asked for it.
pub proof fn lemma_litho_args_keep_cancel_file(
    lower: Seq<char>,
    image: Seq<char>,
    device: Seq<char>,
    block_size: usize,
    verify: bool,
    cancel_file: Seq<char>,
)
    ensures
        ({
            let a = litho_args_spec(lower, image, device, block_size, verify, cancel_file);
            &&& a[9] == "--cancel-file"@
            &&& a[10] == cancel_file
            &&& a.last() == "--yes"@
            &&& a.len() == if subcommand_spec(lower) == "flash"@ && verify {
                13int
            } else {
                12int
            }
            &&& (a.len() == 13 ==> a[11] == "--verify"@)
        }),
{
}

/// The layout of litho's command line, whatever the mode: `-o gui`, the
/// subcommand (`clone` for the modes `clone` and `backup`, else `flash`),
/// then `-f` with the request's image, `-d` with its device, `-b` with the
/// block size in decimal, and `--cancel-file` with the flag file.
pub proof fn lemma_litho_args_layout(
    lower: Seq<char>,
    image: Seq<char>,
    device: Seq<char>,
    block_size: usize,
    verify: bool,
    cancel_file: Seq<char>,
)
    ensures
        ({
            let a = litho_args_spec(lower, image, device, block_size, verify, cancel_file);
            &&& a.len() >= 12
            &&& a[0] == "-o"@
            &&& a[1] == "gui"@
            &&& a[2] == if lower == "clone"@ || lower == "backup"@ {
                "clone"@
            } else {
                "flash"@
            }
            &&& a[3] == "-f"@
            &&& a[4] == image
            &&& a[5] == "-d"@
            &&& a[6] == device
            &&& a[7] == "-b"@
            &&& a[8] == decimal_chars(block_size as nat)
            &&& a[9] == "--cancel-file"@
            &&& a[10] == cancel_file
        }),
{
}

/// The message for a failed exit: off Windows "litho exited with code <n>";
/// on Windows the codes 1 and 5 get their own advice and any other code the
/// same sentence with a pointer to the console.
pub proof fn lemma_exit_messages(code: i32, platform: Platform)
    ensures
        platform != Platform::Windows ==> exit_message_spec(code, platform) == "litho exited with code "@
            + signed_decimal_chars(code as int),
        platform == Platform::Windows && code == 5 ==> exit_message_spec(code, platform)
            == "Flash/clone failed: access denied. Close programs using the target disk and retry."@,
        platform == Platform::Windows && code == 1 ==> exit_message_spec(code, platform)
            == "Flash/clone failed. The disk may be in use (close File Explorer on that drive), or access was denied. Run Lithographer from a console (or set LITHOGRAPHER_CONSOLE=1) for litho error details."@,
        platform == Platform::Windows && code != 1 && code != 5 ==> exit_message_spec(code, platform)
            == "litho exited with code "@ + signed_decimal_chars(code as int)
            + ". Run from a console for detailed litho output."@,
{
}

/// The error that precedes the final `Done` of a failed operation that was
/// not cancelled: a denied authentication (exit 126, or 1223 on Windows)
/// says so, an exit without a code says that, and any other code gives the
/// exit message for that code.
pub proof fn lemma_completion_error_message(exit_code: Option<i32>, platform: Platform)
    ensures
        ({
            let ev = completion_events_spec(exit_code, false, platform);
            &&& exit_code is None ==> ev[0] == UiEvent::Error {
                message: "litho process ended without an exit code."@,
            }
            &&& exit_code == Some(126i32) || (platform == Platform::Windows && exit_code == Some(
                1223i32,
            )) ==> ev[0] == UiEvent::Error { message: "Authentication was cancelled or denied."@ }
            &&& forall|c: i32|
                exit_code == Some(c) && c != 0 && c != 3 && c != 126 && !(platform
                    == Platform::Windows && c == 1223) ==> ev[0] == UiEvent::Error {
                    message: exit_message_spec(c, platform),
                }
        }),
{
}

/// The subcommand is `clone` exactly for the modes `clone` and `backup`
/// (after lower-casing) and `flash` for every other mode.
pub proof fn lemma_subcommand_choice(lower: Seq<char>)
    ensures
        subcommand_spec(lower) == if lower == "clone"@ || lower == "backup"@ {
            "clone"@
        } else {
            "flash"@
        },
{
}

} // verus!
