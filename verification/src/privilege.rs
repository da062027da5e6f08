//! Privilege and elevation decisions: which backend elevates litho, how the
//! next operation will be launched, and the Windows helpers (environment
//! label, command-line quoting, UAC relaunch and elevated-launch outcomes).
use vstd::prelude::*;
use crate::text::{
    chars_of, decimal_chars, is_whitespace, is_ws, join_seqs, opt_view, owned, push_char,
    push_decimal, push_range, push_signed_decimal, push_str, signed_decimal_chars, trim_bounds,
    trim_seq, views,
};

verus! {

/// The operating system the host runs on.
#[derive(PartialEq, Eq, Structural, Clone, Copy, Debug)]
pub enum Platform {
    Linux,
    Windows,
    Other,
}

/// Whether the process can perform privileged block I/O without further
/// elevation: on Linux whether it runs as root, on Windows whether its token
/// is elevated (`probe` holds that answer); never elsewhere.
pub fn has_privileged_access(platform: Platform, probe: bool) -> (r: bool)
    ensures
        r == (platform != Platform::Other && probe),
{
    match platform {
        Platform::Linux => probe,
        Platform::Windows => probe,
        Platform::Other => false,
    }
}

/// Short elevation backend label for logs and diagnostics.
pub open spec fn elevation_method_spec(platform: Platform) -> Seq<char> {
    match platform {
        Platform::Linux => "pkexec"@,
        Platform::Windows => "uac"@,
        Platform::Other => "unsupported"@,
    }
}

/// Short elevation backend label for logs and diagnostics.
pub fn elevation_method(platform: Platform) -> (r: &'static str)
    ensures
        r@ == elevation_method_spec(platform),
{
    match platform {
        Platform::Linux => "pkexec",
        Platform::Windows => "uac",
        Platform::Other => "unsupported",
    }
}

/// How litho will be launched for the next privileged operation.
pub open spec fn spawn_mode_spec(platform: Platform, privileged: bool) -> Seq<char> {
    if privileged {
        "direct"@
    } else if platform == Platform::Windows {
        "uac-relaunch"@
    } else {
        elevation_method_spec(platform)
    }
}

/// How litho will be launched for the next privileged operation, given
/// whether the process already has privileged access.
pub fn spawn_mode(platform: Platform, privileged: bool) -> (r: &'static str)
    ensures
        r@ == spawn_mode_spec(platform, privileged),
{
    if privileged {
        "direct"
    } else {
        match platform {
            Platform::Windows => "uac-relaunch",
            _ => elevation_method(platform),
        }
    }
}

/// Whether privilege escalation can be requested on this machine: on Linux
/// when a polkit agent is available, always on Windows, never elsewhere.
pub fn elevation_ready(platform: Platform, polkit_agent_ready: bool) -> (r: bool)
    ensures
        r == match platform {
            Platform::Linux => polkit_agent_ready,
            Platform::Windows => true,
            Platform::Other => false,
        },
{
    match platform {
        Platform::Linux => polkit_agent_ready,
        Platform::Windows => true,
        Platform::Other => false,
    }
}

/// Whether a polkit authentication agent was found.
pub fn polkit_agent_ready(agent: &Option<String>) -> (r: bool)
    ensures
        r == agent.is_some(),
{
    agent.is_some()
}

/// Whether the output of `id -u` names the root user.
pub open spec fn is_root_uid_output(out: Seq<char>) -> bool {
    trim_seq(out) == "0"@
}

/// Whether the process runs as root, from the standard output of `id -u`
/// (read lossily as text).
pub fn is_running_as_root(id_stdout: &str) -> (r: bool)
    ensures
        r == is_root_uid_output(id_stdout@),
{
    let v = chars_of(id_stdout);
    let (a, b) = trim_bounds(&v);
    let zero = chars_of("0");
    proof {
        reveal_strlit("0");
    }
    if b - a != 1 {
        assert(trim_seq(id_stdout@).len() != zero@.len());
        return false;
    }
    let r = v[a] == zero[0];
    assert(trim_seq(id_stdout@) =~= seq![v@[a as int]]);
    assert(zero@ =~= seq![zero@[0]]);
    r
}

/// The first value that is present and not empty, else `fallback`.
pub open spec fn first_present(values: Seq<Option<Seq<char>>>, fallback: Seq<char>) -> Seq<char>
    decreases values.len(),
{
    if values.len() == 0 {
        fallback
    } else {
        match values[0] {
            Some(v) => if v.len() > 0 {
                v
            } else {
                first_present(values.drop_first(), fallback)
            },
            None => first_present(values.drop_first(), fallback),
        }
    }
}

/// With a non-empty fallback the result is never empty.
pub proof fn lemma_first_present_non_empty(values: Seq<Option<Seq<char>>>, fallback: Seq<char>)
    requires
        fallback.len() > 0,
    ensures
        first_present(values, fallback).len() > 0,
    decreases values.len(),
{
    if values.len() > 0 {
        lemma_first_present_non_empty(values.drop_first(), fallback);
    }
}

/// The views of a sequence of optional strings.
pub open spec fn opt_views(values: Seq<Option<String>>) -> Seq<Option<Seq<char>>> {
    values.map_values(|o: Option<String>| opt_view(o))
}

/// The first value that is present and not empty, else `fallback` (the
/// environment variables of a lookup chain, in order of preference; a
/// variable set to the empty string counts as unset).
pub fn first_present_value(values: &Vec<Option<String>>, fallback: &str) -> (r: String)
    ensures
        r@ == first_present(opt_views(values@), fallback@),
{
    let mut i: usize = 0;
    assert(opt_views(values@).skip(0) =~= opt_views(values@));
    while i < values.len()
        invariant
            i <= values@.len(),
            first_present(opt_views(values@), fallback@) == first_present(
                opt_views(values@).skip(i as int),
                fallback@,
            ),
        decreases values@.len() - i,
    {
        let ghost rest = opt_views(values@).skip(i as int);
        assert(rest.drop_first() =~= opt_views(values@).skip(i + 1));
        match &values[i] {
            Some(v) => {
                let text = owned(v.as_str());
                if crate::text::chars_of(v.as_str()).len() > 0 {
                    return text;
                }
            },
            None => {},
        }
        i = i + 1;
    }
    assert(opt_views(values@).skip(i as int).len() == 0);
    owned(fallback)
}

/// OS / desktop environment label for startup diagnostics. On Linux the
/// first of the desktop variables (`XDG_CURRENT_DESKTOP`, `DESKTOP_SESSION`,
/// `GDMSESSION`) that is set and not empty, else "Linux"; on Windows
/// `windows_label`.
pub fn platform_environment(
    platform: Platform,
    desktop_vars: &Vec<Option<String>>,
    windows_label: &str,
) -> (r: String)
    ensures
        r@ == match platform {
            Platform::Windows => windows_label@,
            Platform::Linux => first_present(opt_views(desktop_vars@), "Linux"@),
            Platform::Other => "unknown"@,
        },
{
    match platform {
        Platform::Windows => owned(windows_label),
        Platform::Linux => first_present_value(desktop_vars, "Linux"),
        Platform::Other => owned("unknown"),
    }
}

/// Version numbers reported by Windows.
#[derive(Debug, Clone, Copy)]
pub struct WindowsVersion {
    pub major: u32,
    pub minor: u32,
    pub build: u32,
}

/// The product name for a Windows version.
pub open spec fn windows_product(major: u32, build: u32) -> Seq<char> {
    if major >= 10 && build >= 22000 {
        "Windows 11"@
    } else if major >= 10 {
        "Windows 10"@
    } else {
        "Windows"@
    }
}

/// Human-readable Windows version: `None` when the version query failed.
pub open spec fn environment_label_spec(version: Option<(u32, u32, u32)>, arch: Seq<char>) -> Seq<
    char,
> {
    match version {
        None => "Windows ("@ + arch + ")"@,
        Some((major, minor, build)) => windows_product(major, build) + " "@ + decimal_chars(
            major as nat,
        ) + "."@ + decimal_chars(minor as nat) + " (build "@ + decimal_chars(build as nat)
            + ", "@ + arch + ")"@,
    }
}

/// Human-readable Windows version for startup diagnostics.
pub fn environment_label(version: Option<WindowsVersion>, arch: &str) -> (r: String)
    ensures
        r@ == environment_label_spec(
            match version {
                Some(v) => Some((v.major, v.minor, v.build)),
                None => None,
            },
            arch@,
        ),
{
    let mut s = String::new();
    match version {
        None => {
            push_str(&mut s, "Windows (");
            push_str(&mut s, arch);
            push_str(&mut s, ")");
            assert(s@ =~= "Windows ("@ + arch@ + ")"@);
        },
        Some(v) => {
            let product = if v.major >= 10 && v.build >= 22000 {
                "Windows 11"
            } else if v.major >= 10 {
                "Windows 10"
            } else {
                "Windows"
            };
            push_str(&mut s, product);
            push_str(&mut s, " ");
            push_decimal(&mut s, v.major as u64);
            push_str(&mut s, ".");
            push_decimal(&mut s, v.minor as u64);
            push_str(&mut s, " (build ");
            push_decimal(&mut s, v.build as u64);
            push_str(&mut s, ", ");
            push_str(&mut s, arch);
            push_str(&mut s, ")");
            assert(s@ =~= windows_product(v.major, v.build) + " "@ + decimal_chars(
                v.major as nat,
            ) + "."@ + decimal_chars(v.minor as nat) + " (build "@ + decimal_chars(
                v.build as nat,
            ) + ", "@ + arch@ + ")"@);
        },
    }
    s
}

// ---------------------------------------------------------------------------
// Windows command-line quoting
// ---------------------------------------------------------------------------
/// Whether an argument must be quoted on a Windows command line: it is
/// empty, or holds whitespace, a double quote or a backslash.
pub open spec fn needs_quoting(a: Seq<char>) -> bool {
    a.len() == 0 || exists|i: int| 0 <= i < a.len() && (is_ws(#[trigger] a[i]) || a[i] == '"' || a[i] == '\\')
}

/// `n` backslashes.
pub open spec fn backslashes(n: nat) -> Seq<char> {
    Seq::new(n, |i: int| '\\')
}

/// How many backslashes `s` starts with.
pub open spec fn backslash_run(s: Seq<char>) -> nat
    decreases s.len(),
{
    if s.len() > 0 && s[0] == '\\' {
        1 + backslash_run(s.drop_first())
    } else {
        0
    }
}

/// What `backslash_run` counts, stated directly.
pub proof fn lemma_backslash_run(s: Seq<char>)
    ensures
        backslash_run(s) <= s.len(),
        forall|j: int| 0 <= j < backslash_run(s) ==> s[j] == '\\',
        backslash_run(s) < s.len() ==> s[backslash_run(s) as int] != '\\',
    decreases s.len(),
{
    if s.len() > 0 && s[0] == '\\' {
        lemma_backslash_run(s.drop_first());
        assert forall|j: int| 0 <= j < backslash_run(s) implies s[j] == '\\' by {
            if j > 0 {
                assert(s[j] == s.drop_first()[j - 1]);
            }
        }
    }
}

proof fn lemma_backslash_run_is(s: Seq<char>, k: nat)
    requires
        k <= s.len(),
        forall|j: int| 0 <= j < k ==> s[j] == '\\',
        k < s.len() ==> s[k as int] != '\\',
    ensures
        backslash_run(s) == k,
    decreases k,
{
    if k > 0 {
        let t = s.drop_first();
        assert forall|j: int| 0 <= j < k - 1 implies t[j] == '\\' by {
            assert(t[j] == s[j + 1]);
        }
        if k - 1 < t.len() {
            assert(t[k - 1] == s[k as int]);
        }
        assert(s[0] == '\\');
        lemma_backslash_run_is(t, (k - 1) as nat);
    }
}

/// The inside of a quoted Windows argument, so that the Microsoft C runtime
/// rules read `a` back: a `"` is written `\"`, and a run of backslashes is
/// doubled where a `"` or the closing quote follows it; other backslashes
/// stay single.
pub open spec fn quote_body(a: Seq<char>) -> Seq<char>
    decreases a.len(),
{
    if a.len() == 0 {
        Seq::empty()
    } else {
        let b = backslash_run(a);
        proof {
            lemma_backslash_run(a);
        }
        if b == 0 {
            (if a[0] == '"' {
                seq!['\\', '"']
            } else {
                seq![a[0]]
            }) + quote_body(a.drop_first())
        } else if b == a.len() {
            backslashes(2 * b)
        } else if a[b as int] == '"' {
            backslashes(2 * b + 1) + seq!['"'] + quote_body(a.skip(b as int + 1))
        } else {
            backslashes(b) + quote_body(a.skip(b as int))
        }
    }
}

/// One argument as written on the command line.
pub open spec fn windows_arg(a: Seq<char>) -> Seq<char> {
    if needs_quoting(a) {
        seq!['"'] + quote_body(a) + seq!['"']
    } else {
        a
    }
}

/// Whether `arg` must be quoted on a Windows command line.
pub fn needs_windows_quoting(arg: &str) -> (r: bool)
    ensures
        r == needs_quoting(arg@),
{
    let v = chars_of(arg);
    if v.len() == 0 {
        return true;
    }
    let mut i: usize = 0;
    while i < v.len()
        invariant
            v@ == arg@,
            i <= v@.len(),
            forall|k: int| 0 <= k < i ==> !(is_ws(#[trigger] v@[k]) || v@[k] == '"' || v@[k] == '\\'),
        decreases v@.len() - i,
    {
        let c = v[i];
        if is_whitespace(c) || c == '"' || c == '\\' {
            assert(is_ws(arg@[i as int]) || arg@[i as int] == '"' || arg@[i as int] == '\\');
            return true;
        }
        i = i + 1;
    }
    false
}

fn push_backslashes(out: &mut Vec<char>, n: usize)
    ensures
        final(out)@ == old(out)@ + backslashes(n as nat),
{
    let mut i: usize = 0;
    while i < n
        invariant
            i <= n,
            out@ == old(out)@ + backslashes(i as nat),
        decreases n - i,
    {
        out.push('\\');
        i = i + 1;
        assert(out@ =~= old(out)@ + backslashes(i as nat));
    }
}

/// The quoted inside of `v`.
fn quoted_body(v: &Vec<char>) -> (r: Vec<char>)
    ensures
        r@ == quote_body(v@),
{
    let n = v.len();
    let mut out: Vec<char> = Vec::new();
    let mut i: usize = 0;
    assert(v@.skip(0) =~= v@);
    while i < n
        invariant
            i <= n == v@.len(),
            quote_body(v@) == out@ + quote_body(v@.skip(i as int)),
        decreases n - i,
    {
        let ghost s = v@.skip(i as int);
        let ghost before = out@;
        let mut j = i;
        while j < n && v[j] == '\\'
            invariant
                i <= j <= n == v@.len(),
                forall|k: int| i <= k < j ==> v@[k] == '\\',
            decreases n - j,
        {
            j = j + 1;
        }
        let b = j - i;
        proof {
            assert forall|k: int| 0 <= k < b implies s[k] == '\\' by {
                assert(s[k] == v@[i + k]);
            }
            if j < n {
                assert(s[b as int] == v@[j as int]);
            }
            lemma_backslash_run_is(s, b as nat);
        }
        if j == n {
            push_backslashes(&mut out, b);
            push_backslashes(&mut out, b);
            proof {
                assert(backslashes(b as nat) + backslashes(b as nat) =~= backslashes(2 * b as nat));
                assert(v@.skip(n as int) =~= Seq::<char>::empty());
            }
            i = n;
        } else if v[j] == '"' {
            push_backslashes(&mut out, b);
            push_backslashes(&mut out, b);
            out.push('\\');
            out.push('"');
            proof {
                assert(s.skip(b as int + 1) =~= v@.skip(j + 1));
                if b == 0 {
                    assert(s.drop_first() =~= v@.skip(j + 1));
                    assert(out@ =~= before + seq!['\\', '"']);
                } else {
                    assert(out@ =~= before + (backslashes((2 * b + 1) as nat) + seq!['"']));
                }
            }
            i = j + 1;
        } else if b > 0 {
            push_backslashes(&mut out, b);
            assert(s.skip(b as int) =~= v@.skip(j as int));
            i = j;
        } else {
            out.push(v[i]);
            assert(s.drop_first() =~= v@.skip(i + 1));
            assert(out@ =~= before + seq![s[0]]);
            i = i + 1;
        }
    }
    assert(v@.skip(n as int) =~= Seq::<char>::empty());
    assert(out@ + Seq::<char>::empty() =~= out@);
    out
}

/// Appends `arg` as written on a Windows command line.
fn push_windows_arg(out: &mut String, arg: &str)
    ensures
        final(out)@ == old(out)@ + windows_arg(arg@),
{
    if !needs_windows_quoting(arg) {
        push_str(out, arg);
        return;
    }
    let v = chars_of(arg);
    let body = quoted_body(&v);
    push_char(out, '"');
    push_range(out, &body, 0, body.len());
    assert(body@.subrange(0, body@.len() as int) =~= body@);
    push_char(out, '"');
    assert(out@ =~= old(out)@ + windows_arg(arg@));
}

/// The arguments as one Windows command line (quoted where needed, joined
/// with single spaces).
pub fn windows_argument_string(args: &Vec<String>) -> (r: String)
    ensures
        r@ == join_seqs(views(args@).map_values(|a: Seq<char>| windows_arg(a)), " "@),
{
    let ghost quoted = views(args@).map_values(|a: Seq<char>| windows_arg(a));
    let mut out = String::new();
    let mut i: usize = 0;
    assert(quoted.take(0) =~= Seq::<Seq<char>>::empty());
    while i < args.len()
        invariant
            i <= args@.len(),
            quoted == views(args@).map_values(|a: Seq<char>| windows_arg(a)),
            out@ == join_seqs(quoted.take(i as int), " "@),
        decreases args@.len() - i,
    {
        let ghost before = out@;
        let ghost prefix = quoted.take(i + 1);
        assert(prefix.drop_last() =~= quoted.take(i as int));
        assert(prefix.last() == windows_arg(args@[i as int]@));
        if i > 0 {
            push_str(&mut out, " ");
            push_windows_arg(&mut out, args[i].as_str());
            assert(out@ =~= before + " "@ + windows_arg(args@[i as int]@));
        } else {
            push_windows_arg(&mut out, args[i].as_str());
            assert(out@ =~= windows_arg(args@[0]@));
        }
        i = i + 1;
    }
    assert(quoted.take(args@.len() as int) =~= quoted);
    out
}

/// How the Microsoft C runtime reads one argument (after the program name)
/// from `s`, which starts at the argument; `quoted` says whether a quote is
/// open. `2n` backslashes before a `"` give `n` backslashes and the `"` opens
/// or closes a quote, except that inside a quote a second `"` right after it
/// gives a literal `"`; `2n + 1` backslashes before a `"` give `n`
/// backslashes and a literal `"`; other backslashes are literal; outside a
/// quote a space or tab ends the argument. Returns the argument and how many
/// characters it took.
pub open spec fn msvc_read(s: Seq<char>, quoted: bool) -> (Seq<char>, nat)
    decreases s.len(),
{
    if s.len() == 0 {
        (Seq::empty(), 0)
    } else {
        let b = backslash_run(s);
        proof {
            lemma_backslash_run(s);
        }
        if b < s.len() && s[b as int] == '"' {
            if b % 2 == 1 {
                let r = msvc_read(s.skip(b as int + 1), quoted);
                (backslashes(b / 2) + seq!['"'] + r.0, r.1 + b + 1)
            } else if quoted && b + 1 < s.len() && s[b as int + 1] == '"' {
                let r = msvc_read(s.skip(b as int + 2), true);
                (backslashes(b / 2) + seq!['"'] + r.0, r.1 + b + 2)
            } else {
                let r = msvc_read(s.skip(b as int + 1), !quoted);
                (backslashes(b / 2) + r.0, r.1 + b + 1)
            }
        } else if b > 0 {
            let r = msvc_read(s.skip(b as int), quoted);
            (backslashes(b) + r.0, r.1 + b)
        } else if !quoted && (s[0] == ' ' || s[0] == '\t') {
            (Seq::empty(), 0)
        } else {
            let r = msvc_read(s.drop_first(), quoted);
            (seq![s[0]] + r.0, r.1 + 1)
        }
    }
}

/// An argument never takes more than there is, and takes something unless it
/// starts at a space or tab outside a quote.
pub proof fn lemma_msvc_read_takes(s: Seq<char>, quoted: bool)
    ensures
        msvc_read(s, quoted).1 <= s.len(),
        s.len() > 0 && (quoted || !(s[0] == ' ' || s[0] == '\t')) ==> msvc_read(s, quoted).1 > 0,
    decreases s.len(),
{
    if s.len() > 0 {
        let b = backslash_run(s);
        lemma_backslash_run(s);
        if b < s.len() && s[b as int] == '"' {
            if b % 2 == 1 {
                lemma_msvc_read_takes(s.skip(b as int + 1), quoted);
            } else if quoted && b + 1 < s.len() && s[b as int + 1] == '"' {
                lemma_msvc_read_takes(s.skip(b as int + 2), true);
            } else {
                lemma_msvc_read_takes(s.skip(b as int + 1), !quoted);
            }
        } else if b > 0 {
            lemma_msvc_read_takes(s.skip(b as int), quoted);
        } else if !quoted && (s[0] == ' ' || s[0] == '\t') {
        } else {
            lemma_msvc_read_takes(s.drop_first(), quoted);
        }
    }
}

/// How the Microsoft C runtime splits a command line (after the program
/// name) into arguments: spaces and tabs between arguments are skipped.
pub open spec fn msvc_split(s: Seq<char>) -> Seq<Seq<char>>
    decreases s.len(),
{
    if s.len() == 0 {
        Seq::empty()
    } else if s[0] == ' ' || s[0] == '\t' {
        msvc_split(s.drop_first())
    } else {
        let r = msvc_read(s, false);
        proof {
            lemma_msvc_read_takes(s, false);
        }
        seq![r.0] + msvc_split(s.skip(r.1 as int))
    }
}

proof fn lemma_read_plain(a: Seq<char>, rest: Seq<char>)
    requires
        forall|i: int| 0 <= i < a.len() ==> !(is_ws(#[trigger] a[i]) || a[i] == '"' || a[i] == '\\'),
        rest.len() == 0 || rest[0] == ' ',
    ensures
        msvc_read(a + rest, false) == (a, a.len()),
    decreases a.len(),
{
    let s = a + rest;
    if a.len() == 0 {
        assert(s =~= rest);
        if rest.len() > 0 {
            lemma_backslash_run_is(rest, 0);
        }
    } else {
        assert(s[0] == a[0]);
        assert(!(is_ws(a[0]) || a[0] == '"' || a[0] == '\\'));
        lemma_backslash_run_is(s, 0);
        let t = a.drop_first();
        assert forall|i: int| 0 <= i < t.len() implies !(is_ws(#[trigger] t[i]) || t[i] == '"'
            || t[i] == '\\') by {
            assert(t[i] == a[i + 1]);
        }
        lemma_read_plain(t, rest);
        assert(s.drop_first() =~= t + rest);
        assert(seq![a[0]] + t =~= a);
    }
}

#[verifier::rlimit(60)]
proof fn lemma_read_quoted_body(a: Seq<char>, rest: Seq<char>)
    requires
        rest.len() == 0 || rest[0] == ' ',
    ensures
        msvc_read(quote_body(a) + seq!['"'] + rest, true) == (a, quote_body(a).len() + 1),
    decreases a.len(),
{
    let s = quote_body(a) + seq!['"'] + rest;
    let no_quote: Seq<char> = Seq::empty();
    if a.len() == 0 {
        assert(s =~= seq!['"'] + rest);
        lemma_backslash_run_is(s, 0);
        assert(s.skip(1) =~= rest);
        lemma_read_plain(no_quote, rest);
        assert(no_quote + rest =~= rest);
        assert(backslashes(0) + no_quote =~= a);
    } else {
        let b = backslash_run(a);
        lemma_backslash_run(a);
        if b == 0 {
            let t = a.drop_first();
            lemma_read_quoted_body(t, rest);
            assert(seq![a[0]] + t =~= a);
            if a[0] == '"' {
                assert(s =~= seq!['\\', '"'] + (quote_body(t) + seq!['"'] + rest));
                lemma_backslash_run_is(s, 1);
                assert(s.skip(2) =~= quote_body(t) + seq!['"'] + rest);
                assert(backslashes(0) + seq!['"'] + t =~= a);
            } else {
                assert(s =~= seq![a[0]] + (quote_body(t) + seq!['"'] + rest));
                lemma_backslash_run_is(s, 0);
                assert(s.drop_first() =~= quote_body(t) + seq!['"'] + rest);
            }
        } else if b == a.len() {
            assert(s =~= backslashes(2 * b) + seq!['"'] + rest);
            lemma_backslash_run_is(s, 2 * b);
            assert(s.skip(2 * b as int + 1) =~= rest);
            lemma_read_plain(no_quote, rest);
            assert(no_quote + rest =~= rest);
            assert((2 * b) / 2 == b);
            assert(backslashes(b) + no_quote =~= a);
        } else if a[b as int] == '"' {
            let t = a.skip(b as int + 1);
            lemma_read_quoted_body(t, rest);
            assert(s =~= backslashes(2 * b + 1) + seq!['"'] + (quote_body(t) + seq!['"'] + rest));
            lemma_backslash_run_is(s, 2 * b + 1);
            assert(s.skip(2 * b as int + 2) =~= quote_body(t) + seq!['"'] + rest);
            assert((2 * b + 1) / 2 == b);
            assert(backslashes(b) + seq!['"'] + t =~= a);
        } else {
            let t = a.skip(b as int);
            lemma_read_quoted_body(t, rest);
            assert(t[0] == a[b as int]);
            lemma_backslash_run_is(t, 0);
            assert(t.drop_first() =~= a.skip(b as int + 1));
            assert(quote_body(t) == seq![t[0]] + quote_body(t.drop_first()));
            assert(s =~= backslashes(b) + (quote_body(t) + seq!['"'] + rest));
            assert(s[b as int] == a[b as int]);
            lemma_backslash_run_is(s, b);
            assert(s.skip(b as int) =~= quote_body(t) + seq!['"'] + rest);
            assert(backslashes(b) + t =~= a);
        }
    }
}

proof fn lemma_read_arg(a: Seq<char>, rest: Seq<char>)
    requires
        rest.len() == 0 || rest[0] == ' ',
    ensures
        msvc_read(windows_arg(a) + rest, false) == (a, windows_arg(a).len()),
        windows_arg(a).len() > 0,
        windows_arg(a)[0] != ' ' && windows_arg(a)[0] != '\t',
{
    if needs_quoting(a) {
        let s = windows_arg(a) + rest;
        assert(s =~= seq!['"'] + (quote_body(a) + seq!['"'] + rest));
        lemma_backslash_run_is(s, 0);
        assert(s.skip(1) =~= quote_body(a) + seq!['"'] + rest);
        lemma_read_quoted_body(a, rest);
        assert(backslashes(0) + a =~= a);
    } else {
        assert(!(is_ws(a[0]) || a[0] == '"' || a[0] == '\\'));
        lemma_read_plain(a, rest);
    }
}

proof fn lemma_join_front(parts: Seq<Seq<char>>, sep: Seq<char>)
    requires
        parts.len() >= 2,
    ensures
        join_seqs(parts, sep) == parts[0] + sep + join_seqs(parts.drop_first(), sep),
    decreases parts.len(),
{
    let d = parts.drop_last();
    let f = parts.drop_first();
    assert(join_seqs(parts, sep) == join_seqs(d, sep) + sep + parts.last());
    assert(join_seqs(f, sep) == if f.len() == 1 {
        f[0]
    } else {
        join_seqs(f.drop_last(), sep) + sep + f.last()
    });
    assert(f.last() == parts.last());
    if parts.len() == 2 {
        assert(join_seqs(d, sep) == d[0]);
        assert(f[0] == parts.last());
    } else {
        lemma_join_front(d, sep);
        assert(d.drop_first() =~= f.drop_last());
        assert(join_seqs(parts, sep) =~= parts[0] + sep + (join_seqs(f.drop_last(), sep) + sep
            + parts.last()));
    }
}

proof fn lemma_split_arguments(args: Seq<Seq<char>>)
    ensures
        msvc_split(join_seqs(args.map_values(|a: Seq<char>| windows_arg(a)), seq![' '])) == args,
    decreases args.len(),
{
    let w = args.map_values(|a: Seq<char>| windows_arg(a));
    if args.len() == 0 {
        assert(join_seqs(w, seq![' ']) == Seq::<char>::empty());
        assert(args =~= Seq::<Seq<char>>::empty());
    } else {
        let tail = args.drop_first();
        let wt = w.drop_first();
        assert(tail.map_values(|a: Seq<char>| windows_arg(a)) =~= wt);
        let rest = if args.len() == 1 {
            Seq::<char>::empty()
        } else {
            seq![' '] + join_seqs(wt, seq![' '])
        };
        if args.len() == 1 {
            assert(join_seqs(w, seq![' ']) == w[0]);
        } else {
            lemma_join_front(w, seq![' ']);
        }
        let s = join_seqs(w, seq![' ']);
        let a0 = windows_arg(args[0]);
        assert(s =~= a0 + rest);
        lemma_read_arg(args[0], rest);
        assert(s[0] == a0[0]);
        assert(s.skip(a0.len() as int) =~= rest);
        assert(msvc_read(s, false) == (args[0], a0.len()));
        assert(msvc_split(s) == seq![args[0]] + msvc_split(rest));
        lemma_split_arguments(tail);
        if args.len() == 1 {
            assert(msvc_split(rest) == Seq::<Seq<char>>::empty());
        } else {
            assert(rest.drop_first() =~= join_seqs(wt, seq![' ']));
            assert(msvc_split(rest) == msvc_split(rest.drop_first()));
        }
        assert(seq![args[0]] + tail =~= args);
    }
}

/// The quoting reads back: the Microsoft C runtime splits the command line
/// written by `windows_argument_string` into exactly the given arguments.
pub proof fn lemma_windows_arguments_read_back(args: Seq<Seq<char>>)
    ensures
        msvc_split(join_seqs(args.map_values(|a: Seq<char>| windows_arg(a)), " "@)) == args,
{
    reveal_strlit(" ");
    assert(" "@ =~= seq![' ']);
    lemma_split_arguments(args);
}

/// Refuses a UAC relaunch from a process that is already elevated.
pub fn relaunch_precheck(already_elevated: bool) -> (r: Result<(), String>)
    ensures
        already_elevated <==> r is Err,
        r matches Err(m) ==> m@ == "Already running with administrator privileges."@,
{
    if already_elevated {
        Err(owned("Already running with administrator privileges."))
    } else {
        Ok(())
    }
}

/// What a `ShellExecuteW` status means for a UAC relaunch: values above 32
/// are success; the others are failures, reported with the status.
pub open spec fn relaunch_status_message(status: i64) -> Seq<char> {
    if status == 1223 {
        "UAC elevation was cancelled or denied. Flash/clone requires administrator access."@
    } else {
        "UAC elevation failed (ShellExecute code "@ + signed_decimal_chars(status as int)
            + "). Try running Lithographer as administrator."@
    }
}

/// The outcome of a UAC relaunch, from the status `ShellExecuteW` returned.
pub fn relaunch_status_result(status: i64) -> (r: Result<(), String>)
    ensures
        r is Ok <==> status > 32,
        r matches Err(m) ==> m@ == relaunch_status_message(status),
{
    if status <= 32 {
        if status == 1223 {
            return Err(
                owned(
                    "UAC elevation was cancelled or denied. Flash/clone requires administrator access.",
                ),
            );
        }
        let mut m = owned("UAC elevation failed (ShellExecute code ");
        push_signed_decimal(&mut m, status);
        push_str(&mut m, "). Try running Lithographer as administrator.");
        assert(m@ =~= relaunch_status_message(status));
        return Err(m);
    }
    Ok(())
}

/// The outcome of `ShellExecuteExW` failing with `last_error` when litho is
/// started elevated by itself: a declined UAC prompt (`ERROR_CANCELLED`) is
/// reported as litho's exit with that code; any other error fails the
/// launch.
pub fn elevated_launch_outcome(last_error: u32) -> (r: Result<Option<i32>, String>)
    ensures
        last_error == 1223 ==> r == Ok::<Option<i32>, String>(Some(1223i32)),
        last_error != 1223 ==> (r matches Err(m) && m@ == "UAC elevation failed (Win32 error "@
            + decimal_chars(last_error as nat) + "). Try running Lithographer as administrator."@),
{
    if last_error == 1223 {
        return Ok(Some(1223));
    }
    let mut m = owned("UAC elevation failed (Win32 error ");
    push_decimal(&mut m, last_error as u64);
    push_str(&mut m, "). Try running Lithographer as administrator.");
    Err(m)
}

/// The outcome of waiting on litho started elevated by itself: whether
/// `ShellExecuteExW` handed back a process handle, the status of the wait
/// (0 when the process ended), and litho's exit code when it could be read.
/// The first of these that went wrong decides the error.
pub fn elevated_process_outcome(
    has_handle: bool,
    wait_status: u32,
    exit_code: Option<u32>,
) -> (r: Result<Option<i32>, String>)
    ensures
        !has_handle ==> (r matches Err(m) && m@
            == "UAC elevation succeeded but no process handle was returned."@),
        has_handle && wait_status != 0 ==> (r matches Err(m) && m@
            == "Failed waiting for elevated litho process (code "@ + decimal_chars(
            wait_status as nat,
        ) + ")."@),
        has_handle && wait_status == 0 && exit_code is None ==> (r matches Err(m) && m@
            == "Failed to read litho exit code."@),
        has_handle && wait_status == 0 && exit_code is Some ==> r == Ok::<Option<i32>, String>(
            Some(exit_code.unwrap() as i32),
        ),
{
    if !has_handle {
        return Err(owned("UAC elevation succeeded but no process handle was returned."));
    }
    if wait_status != 0 {
        let mut m = owned("Failed waiting for elevated litho process (code ");
        push_decimal(&mut m, wait_status as u64);
        push_str(&mut m, ").");
        return Err(m);
    }
    match exit_code {
        Some(code) => Ok(Some(code as i32)),
        None => Err(owned("Failed to read litho exit code.")),
    }
}

/// The first value that is present and not empty, else the fallback: the
/// result is either such a value with only absent or empty values before it,
/// or the fallback when there is none.
pub proof fn lemma_first_present_picks_first(values: Seq<Option<Seq<char>>>, fallback: Seq<char>)
    ensures
        (exists|i: int|
            0 <= i < values.len() && values[i] == Some(first_present(values, fallback))
                && first_present(values, fallback).len() > 0 && forall|j: int|
                0 <= j < i ==> (#[trigger] values[j] is None || values[j]->0.len() == 0)) || (
        first_present(values, fallback) == fallback && forall|j: int|
            0 <= j < values.len() ==> (#[trigger] values[j] is None || values[j]->0.len() == 0)),
    decreases values.len(),
{
    if values.len() > 0 {
        let t = values.drop_first();
        lemma_first_present_picks_first(t, fallback);
        let r = first_present(values, fallback);
        if values[0] is Some && values[0]->0.len() > 0 {
            assert(values[0] == Some(r));
        } else {
            assert(r == first_present(t, fallback));
            if exists|i: int|
                0 <= i < t.len() && t[i] == Some(r) && r.len() > 0 && forall|j: int|
                    0 <= j < i ==> (#[trigger] t[j] is None || t[j]->0.len() == 0) {
                let i = choose|i: int|
                    0 <= i < t.len() && t[i] == Some(r) && r.len() > 0 && forall|j: int|
                        0 <= j < i ==> (#[trigger] t[j] is None || t[j]->0.len() == 0);
                assert(values[i + 1] == Some(r));
                assert forall|j: int| 0 <= j < i + 1 implies (#[trigger] values[j] is None
                    || values[j]->0.len() == 0) by {
                    if j > 0 {
                        assert(values[j] == t[j - 1]);
                    }
                }
            } else {
                assert forall|j: int| 0 <= j < values.len() implies (#[trigger] values[j] is None
                    || values[j]->0.len() == 0) by {
                    if j > 0 {
                        assert(values[j] == t[j - 1]);
                    }
                }
            }
        }
    }
}

/// An argument is written as it is when it is not empty and holds no
/// whitespace, double quote or backslash; otherwise it is put in double
/// quotes.
pub proof fn lemma_windows_arg_quoted_when_needed(a: Seq<char>)
    ensures
        a.len() > 0 && (forall|i: int|
            0 <= i < a.len() ==> !(is_ws(#[trigger] a[i]) || a[i] == '"' || a[i] == '\\'))
            ==> windows_arg(a) == a,
        !(a.len() > 0 && (forall|i: int|
            0 <= i < a.len() ==> !(is_ws(#[trigger] a[i]) || a[i] == '"' || a[i] == '\\')))
            ==> windows_arg(a).len() >= 2 && windows_arg(a)[0] == '"' && windows_arg(a).last()
            == '"',
{
}

/// The Windows label names Windows 11 from build 22000 of version 10 on,
/// Windows 10 for other builds of version 10 and later, and plain Windows
/// before; it closes with the architecture in brackets.
pub proof fn lemma_environment_label(version: Option<(u32, u32, u32)>, arch: Seq<char>)
    ensures
        version is None ==> environment_label_spec(version, arch) == "Windows ("@ + arch + ")"@,
        forall|major: u32, minor: u32, build: u32|
            version == Some((major, minor, build)) ==> environment_label_spec(version, arch) == (if major
                >= 10 && build >= 22000 {
                "Windows 11"@
            } else if major >= 10 {
                "Windows 10"@
            } else {
                "Windows"@
            }) + " "@ + decimal_chars(major as nat) + "."@ + decimal_chars(minor as nat)
                + " (build "@ + decimal_chars(build as nat) + ", "@ + arch + ")"@,
{
}

/// A UAC relaunch succeeded exactly when `ShellExecuteW` returned more than
/// 32; a refused prompt (1223) says so, any other failure gives the status.
pub proof fn lemma_relaunch_status(status: i64)
    ensures
        status == 1223 ==> relaunch_status_message(status)
            == "UAC elevation was cancelled or denied. Flash/clone requires administrator access."@,
        status != 1223 ==> relaunch_status_message(status) == "UAC elevation failed (ShellExecute code "@
            + signed_decimal_chars(status as int) + "). Try running Lithographer as administrator."@,
{
}

/// The process runs as root exactly when `id -u` printed 0, whitespace
/// around it aside.
pub proof fn lemma_root_uid(out: Seq<char>)
    ensures
        is_root_uid_output(out) <==> trim_seq(out) == seq!['0'],
{
    reveal_strlit("0");
    assert("0"@ =~= seq!['0']);
}

} // verus!
