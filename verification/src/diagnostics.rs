//! Startup diagnostics: where to look for a polkit authentication agent, the
//! preview of the litho command line, and the diagnostics record shown in the
//! privilege badge.
use vstd::prelude::*;
use crate::privilege::{elevation_method_spec, elevation_method, spawn_mode, spawn_mode_spec, Platform};
use crate::text::{
    chars_of, contains_chars, contains_seq, has_prefix_at, is_whitespace, is_ws, lowercase_of,
    matches_at, opt_view, owned, push_str, str_contains, string_of_range, to_lowercase, views,
};

verus! {

/// The greeting of the demo command.
pub fn greet(name: &str) -> (r: String)
    ensures
        r@ == "Hello, "@ + name@ + "! You've been greeted from Rust!"@,
{
    let mut s = owned("Hello, ");
    push_str(&mut s, name);
    push_str(&mut s, "! You've been greeted from Rust!");
    s
}

/// The name of the platform in diagnostics; `os` names any platform other
/// than Linux and Windows.
pub fn platform_name(platform: Platform, os: &str) -> (r: String)
    ensures
        r@ == match platform {
            Platform::Windows => "windows"@,
            Platform::Linux => "linux"@,
            Platform::Other => os@,
        },
{
    match platform {
        Platform::Windows => owned("windows"),
        Platform::Linux => owned("linux"),
        Platform::Other => owned(os),
    }
}

/// Whether file metadata allows running the file: a regular file with an
/// execute bit set (`mode` holds the Unix permission bits; `None` where the
/// platform has none, and then any regular file qualifies).
pub fn permits_execution(is_file: bool, mode: Option<u32>) -> (r: bool)
    ensures
        r == (is_file && match mode {
            Some(m) => m & 0o111u32 != 0,
            None => true,
        }),
{
    if !is_file {
        return false;
    }
    match mode {
        Some(m) => (m & 0o111u32) != 0,
        None => true,
    }
}

// ---------------------------------------------------------------------------
// Lines and words
// ---------------------------------------------------------------------------
/// The lines of `s` (`str::lines`): split at `\n`, a `\r` before the `\n`
/// dropped, and no empty line after a final `\n`.
pub open spec fn lines_of(s: Seq<char>) -> Seq<Seq<char>>
    decreases s.len(),
{
    if s.len() == 0 {
        Seq::empty()
    } else {
        let k = crate::text::find_char(s, '\n');
        if k >= s.len() {
            seq![s]
        } else {
            proof {
                crate::text::lemma_find_char(s, '\n');
            }
            let line = s.take(k);
            let line = if line.len() > 0 && line.last() == '\r' {
                line.drop_last()
            } else {
                line
            };
            seq![line] + lines_of(s.skip(k + 1))
        }
    }
}

/// Index of the first whitespace character of `s`, or `s.len()`.
pub open spec fn find_ws(s: Seq<char>) -> int
    decreases s.len(),
{
    if s.len() == 0 {
        0
    } else if is_ws(s[0]) {
        0
    } else {
        1 + find_ws(s.drop_first())
    }
}

/// What `find_ws` returns, stated directly.
pub proof fn lemma_find_ws(s: Seq<char>)
    ensures
        0 <= find_ws(s) <= s.len(),
        forall|j: int| 0 <= j < find_ws(s) ==> !is_ws(s[j]),
        find_ws(s) < s.len() ==> is_ws(s[find_ws(s)]),
    decreases s.len(),
{
    if s.len() > 0 && !is_ws(s[0]) {
        lemma_find_ws(s.drop_first());
        assert forall|j: int| 0 <= j < find_ws(s) implies !is_ws(s[j]) by {
            if j > 0 {
                assert(s[j] == s.drop_first()[j - 1]);
            }
        }
    }
}

proof fn lemma_find_ws_unique(s: Seq<char>, k: int)
    requires
        0 <= k <= s.len(),
        forall|j: int| 0 <= j < k ==> !is_ws(s[j]),
        k < s.len() ==> is_ws(s[k]),
    ensures
        find_ws(s) == k,
{
    lemma_find_ws(s);
    let f = find_ws(s);
    if f < k {
        assert(is_ws(s[f]));
    } else if k < f {
        assert(!is_ws(s[k]));
    }
}

/// The whitespace-separated words of `s` (`str::split_whitespace`).
pub open spec fn words_of(s: Seq<char>) -> Seq<Seq<char>>
    decreases s.len(),
{
    if s.len() == 0 {
        Seq::empty()
    } else if is_ws(s[0]) {
        words_of(s.drop_first())
    } else {
        proof {
            lemma_find_ws(s);
        }
        let e = find_ws(s);
        seq![s.take(e)] + words_of(s.skip(e))
    }
}

/// The lines of `text`.
pub fn lines(text: &str) -> (r: Vec<String>)
    ensures
        views(r@) == lines_of(text@),
{
    let v = chars_of(text);
    let n = v.len();
    let mut out: Vec<String> = Vec::new();
    let mut i: usize = 0;
    assert(v@.skip(0) =~= v@);
    while i < n
        invariant
            i <= n == v@.len(),
            v@ == text@,
            lines_of(text@) == views(out@) + lines_of(v@.skip(i as int)),
        decreases n - i,
    {
        let ghost s = v@.skip(i as int);
        let k = crate::text::find_char_from(&v, i, '\n');
        assert(v@.subrange(i as int, n as int) =~= s);
        let ghost before = views(out@);
        if k >= n {
            out.push(string_of_range(&v, i, n));
            assert(s.take(n - i) =~= s);
            assert(views(out@) =~= before + seq![s]);
            assert(lines_of(v@.skip(n as int)) =~= Seq::<Seq<char>>::empty());
            assert(lines_of(s) == seq![s]);
            assert(lines_of(text@) =~= views(out@) + lines_of(v@.skip(n as int)));
            i = n;
        } else {
            let end = if k > i && v[k - 1] == '\r' {
                k - 1
            } else {
                k
            };
            out.push(string_of_range(&v, i, end));
            proof {
                let line = s.take(k - i);
                assert(line =~= v@.subrange(i as int, k as int));
                if k > i && v@[k - 1] == '\r' {
                    assert(line.drop_last() =~= v@.subrange(i as int, end as int));
                }
                assert(s.skip(k - i + 1) =~= v@.skip(k + 1));
                assert(views(out@) =~= before + seq![v@.subrange(i as int, end as int)]);
            }
            i = k + 1;
        }
    }
    assert(v@.skip(n as int) =~= Seq::<char>::empty());
    assert(views(out@) + Seq::<Seq<char>>::empty() =~= views(out@));
    out
}

/// The whitespace-separated words of `text`.
pub fn words(text: &str) -> (r: Vec<String>)
    ensures
        views(r@) == words_of(text@),
{
    let v = chars_of(text);
    let n = v.len();
    let mut out: Vec<String> = Vec::new();
    let mut i: usize = 0;
    assert(v@.skip(0) =~= v@);
    while i < n
        invariant
            i <= n == v@.len(),
            v@ == text@,
            words_of(text@) == views(out@) + words_of(v@.skip(i as int)),
        decreases n - i,
    {
        let ghost s = v@.skip(i as int);
        if is_whitespace(v[i]) {
            assert(s.drop_first() =~= v@.skip(i + 1));
            i = i + 1;
        } else {
            let mut j = i + 1;
            while j < n && !is_whitespace(v[j])
                invariant
                    i < j <= n == v@.len(),
                    forall|m: int| i <= m < j ==> !is_ws(v@[m]),
                decreases n - j,
            {
                j = j + 1;
            }
            proof {
                lemma_find_ws_unique(s, j - i);
                assert(s.take(j - i) =~= v@.subrange(i as int, j as int));
                assert(s.skip(j - i) =~= v@.skip(j as int));
            }
            let ghost before = views(out@);
            out.push(string_of_range(&v, i, j));
            assert(views(out@) =~= before + seq![v@.subrange(i as int, j as int)]);
            i = j;
        }
    }
    assert(v@.skip(n as int) =~= Seq::<char>::empty());
    assert(views(out@) + Seq::<Seq<char>>::empty() =~= views(out@));
    out
}

// ---------------------------------------------------------------------------
// Polkit authentication agents
// ---------------------------------------------------------------------------
/// Whether a word of `ps` output names a polkit program by absolute path.
pub open spec fn is_polkit_path(word: Seq<char>) -> bool {
    has_prefix_at(word, 0, "/"@) && contains_seq(word, "polkit"@)
}

/// Whether a word names a polkit program by absolute path.
pub fn is_polkit_path_word(word: &str) -> (r: bool)
    ensures
        r == is_polkit_path(word@),
{
    let v = chars_of(word);
    let slash = chars_of("/");
    let polkit = chars_of("polkit");
    matches_at(&v, 0, &slash) && contains_chars(&v, &polkit)
}

/// The first word of `ws` that names a polkit program, if any.
pub open spec fn first_polkit_path(ws: Seq<Seq<char>>) -> Option<Seq<char>>
    decreases ws.len(),
{
    if ws.len() == 0 {
        None
    } else if is_polkit_path(ws[0]) {
        Some(ws[0])
    } else {
        first_polkit_path(ws.drop_first())
    }
}

/// The executable path in a `ps` line: its first word that starts with `/`
/// and mentions polkit.
pub fn extract_executable_path_from_ps(line: &str) -> (r: Option<String>)
    ensures
        match r {
            Some(p) => first_polkit_path(words_of(line@)) == Some(p@),
            None => first_polkit_path(words_of(line@)) is None,
        },
{
    let ws = words(line);
    let mut i: usize = 0;
    assert(views(ws@).skip(0) =~= views(ws@));
    while i < ws.len()
        invariant
            i <= ws@.len(),
            views(ws@) == words_of(line@),
            first_polkit_path(words_of(line@)) == first_polkit_path(views(ws@).skip(i as int)),
        decreases ws@.len() - i,
    {
        assert(views(ws@).skip(i as int).drop_first() =~= views(ws@).skip(i + 1));
        if is_polkit_path_word(ws[i].as_str()) {
            return Some(ws[i].clone());
        }
        i = i + 1;
    }
    None
}

/// Whether a `ps` line, lower-cased to `lower`, looks like a polkit agent.
pub open spec fn mentions_polkit_agent(lower: Seq<char>) -> bool {
    contains_seq(lower, "polkit"@) && (contains_seq(lower, "agent"@) || contains_seq(
        lower,
        "-authentication-agent"@,
    ))
}

/// Whether a `ps` line already in lower case looks like a polkit agent.
pub fn lowered_line_mentions_polkit_agent(lower: &str) -> (r: bool)
    ensures
        r == mentions_polkit_agent(lower@),
{
    str_contains(lower, "polkit") && (str_contains(lower, "agent") || str_contains(
        lower,
        "-authentication-agent",
    ))
}

/// Whether a `ps` line looks like a polkit agent (letter case ignored).
pub fn ps_line_mentions_polkit_agent(line: &str) -> (r: bool)
    ensures
        r == mentions_polkit_agent(lowercase_of(line@)),
{
    let lower = to_lowercase(line);
    lowered_line_mentions_polkit_agent(lower.as_str())
}

/// Agent paths read from `ps` output: for each line that looks like a polkit
/// agent, its executable path when it has one.
pub open spec fn agents_in_ps(ls: Seq<Seq<char>>) -> Seq<Seq<char>>
    decreases ls.len(),
{
    if ls.len() == 0 {
        Seq::empty()
    } else {
        let rest = agents_in_ps(ls.drop_first());
        if mentions_polkit_agent(lowercase_of(ls[0])) {
            match first_polkit_path(words_of(ls[0])) {
                Some(p) => seq![p] + rest,
                None => rest,
            }
        } else {
            rest
        }
    }
}

/// Known agent locations, prioritised by the lower-cased desktop name.
pub open spec fn agent_fallbacks(de: Seq<char>) -> Seq<Seq<char>> {
    if contains_seq(de, "gnome"@) {
        seq![
            "/usr/libexec/polkit-gnome-authentication-agent-1"@,
            "/usr/lib/polkit-gnome/polkit-gnome-authentication-agent-1"@,
            "/usr/lib/gnome-polkit/polkit-gnome-authentication-agent-1"@,
        ]
    } else if contains_seq(de, "kde"@) || contains_seq(de, "plasma"@) {
        seq![
            "/usr/libexec/polkit-kde-authentication-agent-1"@,
            "/usr/lib/polkit-kde-authentication-agent-1"@,
            "/usr/lib/x86_64-linux-gnu/libexec/polkit-kde-authentication-agent-1"@,
        ]
    } else if contains_seq(de, "xfce"@) {
        seq![
            "/usr/libexec/xfce-polkit"@,
            "/usr/lib/xfce4/polkit/xfce-polkit"@,
            "/usr/bin/xfce-polkit"@,
        ]
    } else if contains_seq(de, "mate"@) {
        seq![
            "/usr/libexec/polkit-mate-authentication-agent-1"@,
            "/usr/lib/mate-polkit/polkit-mate-authentication-agent-1"@,
        ]
    } else if contains_seq(de, "lx"@) || contains_seq(de, "lxd"@) || contains_seq(
        de,
        "lubuntu"@,
    ) {
        seq!["/usr/bin/lxpolkit"@, "/usr/libexec/lxpolkit"@, "/usr/lib/lxpolkit/lxpolkit"@]
    } else if contains_seq(de, "cinnamon"@) {
        seq!["/usr/libexec/cinnamon-polkit"@, "/usr/bin/cinnamon-polkit"@]
    } else {
        generic_agent_paths()
    }
}

/// Agent locations tried whatever the desktop.
pub open spec fn generic_agent_paths() -> Seq<Seq<char>> {
    seq![
        "/usr/libexec/polkit-gnome-authentication-agent-1"@,
        "/usr/libexec/polkit-kde-authentication-agent-1"@,
        "/usr/libexec/polkit-mate-authentication-agent-1"@,
        "/usr/bin/lxpolkit"@,
        "/usr/libexec/xfce-polkit"@,
    ]
}

fn push_all(out: &mut Vec<String>, items: &[&str])
    ensures
        views(final(out)@) == views(old(out)@) + items@.map_values(|s: &str| s@),
{
    let mut i: usize = 0;
    while i < items.len()
        invariant
            i <= items@.len(),
            views(out@) == views(old(out)@) + items@.map_values(|s: &str| s@).take(i as int),
        decreases items@.len() - i,
    {
        let ghost before = views(out@);
        out.push(owned(items[i]));
        assert(views(out@) =~= before.push(items@[i as int]@));
        assert(items@.map_values(|s: &str| s@).take(i + 1) =~= items@.map_values(
            |s: &str| s@,
        ).take(i as int).push(items@[i as int]@));
        i = i + 1;
    }
    assert(items@.map_values(|s: &str| s@).take(items@.len() as int) =~= items@.map_values(
        |s: &str| s@,
    ));
}

/// Known agent locations for a desktop name already in lower case.
pub fn agent_fallbacks_for_lowered(de: &str) -> (r: Vec<String>)
    ensures
        views(r@) == agent_fallbacks(de@),
{
    let mut out: Vec<String> = Vec::new();
    if str_contains(de, "gnome") {
        push_all(
            &mut out,
            &[
                "/usr/libexec/polkit-gnome-authentication-agent-1",
                "/usr/lib/polkit-gnome/polkit-gnome-authentication-agent-1",
                "/usr/lib/gnome-polkit/polkit-gnome-authentication-agent-1",
            ],
        );
    } else if str_contains(de, "kde") || str_contains(de, "plasma") {
        push_all(
            &mut out,
            &[
                "/usr/libexec/polkit-kde-authentication-agent-1",
                "/usr/lib/polkit-kde-authentication-agent-1",
                "/usr/lib/x86_64-linux-gnu/libexec/polkit-kde-authentication-agent-1",
            ],
        );
    } else if str_contains(de, "xfce") {
        push_all(
            &mut out,
            &[
                "/usr/libexec/xfce-polkit",
                "/usr/lib/xfce4/polkit/xfce-polkit",
                "/usr/bin/xfce-polkit",
            ],
        );
    } else if str_contains(de, "mate") {
        push_all(
            &mut out,
            &[
                "/usr/libexec/polkit-mate-authentication-agent-1",
                "/usr/lib/mate-polkit/polkit-mate-authentication-agent-1",
            ],
        );
    } else if str_contains(de, "lx") || str_contains(de, "lxd") || str_contains(de, "lubuntu") {
        push_all(
            &mut out,
            &["/usr/bin/lxpolkit", "/usr/libexec/lxpolkit", "/usr/lib/lxpolkit/lxpolkit"],
        );
    } else if str_contains(de, "cinnamon") {
        push_all(&mut out, &["/usr/libexec/cinnamon-polkit", "/usr/bin/cinnamon-polkit"]);
    } else {
        push_generic_agent_paths(&mut out);
    }
    assert(views(out@) =~= agent_fallbacks(de@));
    out
}

fn push_generic_agent_paths(out: &mut Vec<String>)
    ensures
        views(final(out)@) == views(old(out)@) + generic_agent_paths(),
{
    push_all(
        out,
        &[
            "/usr/libexec/polkit-gnome-authentication-agent-1",
            "/usr/libexec/polkit-kde-authentication-agent-1",
            "/usr/libexec/polkit-mate-authentication-agent-1",
            "/usr/bin/lxpolkit",
            "/usr/libexec/xfce-polkit",
        ],
    );
    assert(views(out@) =~= views(old(out)@) + generic_agent_paths());
}

/// Agent paths read from the lines of `ps` output.
fn agents_from_ps(ps_stdout: &str) -> (r: Vec<String>)
    ensures
        views(r@) == agents_in_ps(lines_of(ps_stdout@)),
{
    let ls = lines(ps_stdout);
    let mut out: Vec<String> = Vec::new();
    let mut i: usize = ls.len();
    assert(views(ls@).skip(i as int) =~= Seq::<Seq<char>>::empty());
    while i > 0
        invariant
            i <= ls@.len(),
            views(ls@) == lines_of(ps_stdout@),
            views(out@) == agents_in_ps(views(ls@).skip(i as int)),
        decreases i,
    {
        i = i - 1;
        let ghost tail = views(ls@).skip(i as int);
        assert(tail.drop_first() =~= views(ls@).skip(i + 1));
        assert(tail[0] == ls@[i as int]@);
        if ps_line_mentions_polkit_agent(ls[i].as_str()) {
            match extract_executable_path_from_ps(ls[i].as_str()) {
                Some(p) => {
                    let ghost before = views(out@);
                    out.insert(0, p);
                    assert(views(out@) =~= seq![p@] + before);
                },
                None => {},
            }
        }
    }
    assert(views(ls@).skip(0) =~= views(ls@));
    out
}

/// Where to look for a polkit authentication agent, in order: the agents
/// seen in `ps` output for the user (when `ps` ran), then the known
/// locations for the desktop `desktop`. The first of these that is a
/// regular file is the agent.
pub open spec fn agent_search_order(ps_stdout: Option<Seq<char>>, desktop: Seq<char>) -> Seq<
    Seq<char>,
> {
    let from_ps = match ps_stdout {
        Some(out) => agents_in_ps(lines_of(out)),
        None => Seq::empty(),
    };
    from_ps + agent_fallbacks(lowercase_of(desktop))
}

/// Where to look for a polkit authentication agent, in order.
pub fn polkit_agent_candidates(ps_stdout: Option<&str>, desktop: &str) -> (r: Vec<String>)
    ensures
        views(r@) == agent_search_order(
            match ps_stdout {
                Some(s) => Some(s@),
                None => None,
            },
            desktop@,
        ),
{
    let mut out = match ps_stdout {
        Some(s) => agents_from_ps(s),
        None => Vec::new(),
    };
    let de = to_lowercase(desktop);
    let mut fallbacks = agent_fallbacks_for_lowered(de.as_str());
    let ghost before = views(out@);
    out.append(&mut fallbacks);
    assert(views(out@) =~= before + agent_fallbacks(lowercase_of(desktop@)));
    out
}

/// Polkit agents named in `ps` output, every matching word of every line
/// that looks like an agent, in order.
pub open spec fn agent_words_in_ps(ls: Seq<Seq<char>>) -> Seq<Seq<char>>
    decreases ls.len(),
{
    if ls.len() == 0 {
        Seq::empty()
    } else {
        let rest = agent_words_in_ps(ls.drop_first());
        if mentions_polkit_agent(lowercase_of(ls[0])) {
            words_of(ls[0]).filter(|w: Seq<char>| is_polkit_path(w)) + rest
        } else {
            rest
        }
    }
}

/// The polkit words of one line.
fn polkit_words(line: &str) -> (r: Vec<String>)
    ensures
        views(r@) == words_of(line@).filter(|w: Seq<char>| is_polkit_path(w)),
{
    let ws = words(line);
    let mut out: Vec<String> = Vec::new();
    let mut i: usize = 0;
    let ghost pred = |w: Seq<char>| is_polkit_path(w);
    assert(views(ws@).take(0) =~= Seq::<Seq<char>>::empty());
    while i < ws.len()
        invariant
            i <= ws@.len(),
            views(ws@) == words_of(line@),
            pred == (|w: Seq<char>| is_polkit_path(w)),
            views(out@) == views(ws@).take(i as int).filter(pred),
        decreases ws@.len() - i,
    {
        let ghost before = views(out@);
        assert(views(ws@).take(i + 1).drop_last() =~= views(ws@).take(i as int));
        assert(views(ws@).take(i + 1) =~= views(ws@).take(i as int).push(ws@[i as int]@));
        proof {
            views(ws@).take(i as int).lemma_filter_push(ws@[i as int]@, pred);
        }
        assert(pred(ws@[i as int]@) == is_polkit_path(ws@[i as int]@));
        if is_polkit_path_word(ws[i].as_str()) {
            out.push(ws[i].clone());
            assert(views(out@) =~= before.push(ws@[i as int]@));
        } else {
            assert(views(out@) =~= before);
        }
        i = i + 1;
    }
    assert(views(ws@).take(ws@.len() as int) =~= views(ws@));
    out
}

/// Where the Linux privilege check looks for a polkit agent, in order: every
/// polkit path named on `ps` lines that look like agents, then the known
/// locations.
pub fn linux_agent_candidates(ps_stdout: Option<&str>) -> (r: Vec<String>)
    ensures
        views(r@) == match ps_stdout {
            Some(s) => agent_words_in_ps(lines_of(s@)),
            None => Seq::empty(),
        } + generic_agent_paths(),
{
    let mut out: Vec<String> = Vec::new();
    match ps_stdout {
        Some(s) => {
            let ls = lines(s);
            let mut i: usize = ls.len();
            assert(views(ls@).skip(i as int) =~= Seq::<Seq<char>>::empty());
            while i > 0
                invariant
                    i <= ls@.len(),
                    views(ls@) == lines_of(s@),
                    views(out@) == agent_words_in_ps(views(ls@).skip(i as int)),
                decreases i,
            {
                i = i - 1;
                let ghost tail = views(ls@).skip(i as int);
                assert(tail.drop_first() =~= views(ls@).skip(i + 1));
                assert(tail[0] == ls@[i as int]@);
                if ps_line_mentions_polkit_agent(ls[i].as_str()) {
                    let mut found = polkit_words(ls[i].as_str());
                    let ghost before = views(out@);
                    let ghost f = views(found@);
                    found.append(&mut out);
                    out = found;
                    assert(views(out@) =~= f + before);
                }
            }
            assert(views(ls@).skip(0) =~= views(ls@));
        },
        None => {},
    }
    let ghost before = views(out@);
    push_generic_agent_paths(&mut out);
    out
}

// ---------------------------------------------------------------------------
// The litho command preview
// ---------------------------------------------------------------------------
/// The litho arguments shown in previews.
pub fn litho_gui_args_preview() -> (r: &'static str)
    ensures
        r@ == "-o gui <flash|clone> -f <image> -d <device> -b <block_size> --cancel-file <path> [--verify] [--yes]"@,
{
    "-o gui <flash|clone> -f <image> -d <device> -b <block_size> --cancel-file <path> [--verify] [--yes]"
}

/// The preview of how litho will be run.
pub open spec fn spawn_preview_spec(sidecar: Seq<char>, is_elevated: bool, platform: Platform) -> Seq<
    char,
> {
    let args
        = "-o gui <flash|clone> -f <image> -d <device> -b <block_size> --cancel-file <path> [--verify] [--yes]"@;
    if is_elevated {
        sidecar + " "@ + args
    } else if platform == Platform::Windows {
        "UAC runas → lithographer --auto-run … → "@ + sidecar + " "@ + args
    } else {
        "pkexec "@ + sidecar + " "@ + args
    }
}

/// The preview of how litho will be run for the sidecar at `sidecar`.
pub fn litho_spawn_preview(sidecar: &str, is_elevated: bool, platform: Platform) -> (r: String)
    ensures
        r@ == spawn_preview_spec(sidecar@, is_elevated, platform),
{
    let args = litho_gui_args_preview();
    let mut s = String::new();
    if !is_elevated {
        match platform {
            Platform::Windows => push_str(&mut s, "UAC runas → lithographer --auto-run … → "),
            _ => push_str(&mut s, "pkexec "),
        }
    }
    push_str(&mut s, sidecar);
    push_str(&mut s, " ");
    push_str(&mut s, args);
    assert(s@ =~= spawn_preview_spec(sidecar@, is_elevated, platform));
    s
}

/// The preview when the sidecar has not been located.
pub fn litho_spawn_preview_unresolved(is_elevated: bool, platform: Platform) -> (r: String)
    ensures
        r@ == spawn_preview_spec("<litho-sidecar>"@, is_elevated, platform),
{
    litho_spawn_preview("<litho-sidecar>", is_elevated, platform)
}

// ---------------------------------------------------------------------------
// The startup note and the image dialog
// ---------------------------------------------------------------------------
/// The note printed at the end of the startup report: its lines, and whether
/// it is a warning (printed to standard error).
#[derive(Debug, Clone)]
pub struct StartupNote {
    pub warning: bool,
    pub lines: Vec<String>,
}

/// The lines of the startup note.
pub open spec fn startup_note_spec(platform: Platform, is_elevated: bool, elevation_ready: bool) -> (
    bool,
    Seq<Seq<char>>,
) {
    let windows = platform == Platform::Windows;
    if is_elevated {
        (
            false,
            seq![
                if windows {
                    "Note: App is running elevated. Litho sidecar will be spawned directly."@
                } else {
                    "Note: App is running as root. Litho sidecar will be spawned directly."@
                },
            ],
        )
    } else if !elevation_ready {
        if windows {
            (true, seq!["WARNING: Administrator elevation (UAC) is not available."@])
        } else {
            (
                true,
                seq![
                    "WARNING: No usable polkit authentication agent found."@,
                    "   GUI privilege escalation (for writing to devices) may not work."@,
                    "   Install the polkit agent for your desktop environment."@,
                ],
            )
        }
    } else {
        (
            false,
            seq![
                if windows {
                    "UAC looks ready. Litho will prompt for administrator approval per operation."@
                } else {
                    "Polkit agent looks ready for privilege escalation requests."@
                },
            ],
        )
    }
}

/// The note printed at the end of the startup report.
pub fn startup_privilege_note(platform: Platform, is_elevated: bool, elevation_ready: bool) -> (r:
    StartupNote)
    ensures
        (r.warning, views(r.lines@)) == startup_note_spec(platform, is_elevated, elevation_ready),
{
    let windows = platform == Platform::Windows;
    let mut lines: Vec<String> = Vec::new();
    let warning;
    if is_elevated {
        warning = false;
        if windows {
            lines.push(owned("Note: App is running elevated. Litho sidecar will be spawned directly."));
        } else {
            lines.push(owned("Note: App is running as root. Litho sidecar will be spawned directly."));
        }
    } else if !elevation_ready {
        warning = true;
        if windows {
            lines.push(owned("WARNING: Administrator elevation (UAC) is not available."));
        } else {
            lines.push(owned("WARNING: No usable polkit authentication agent found."));
            lines.push(owned("   GUI privilege escalation (for writing to devices) may not work."));
            lines.push(owned("   Install the polkit agent for your desktop environment."));
        }
    } else {
        warning = false;
        if windows {
            lines.push(
                owned(
                    "UAC looks ready. Litho will prompt for administrator approval per operation.",
                ),
            );
        } else {
            lines.push(owned("Polkit agent looks ready for privilege escalation requests."));
        }
    }
    assert(views(lines@) =~= startup_note_spec(platform, is_elevated, elevation_ready).1);
    StartupNote { warning, lines }
}

/// Whether a mode picks a clone target (`clone` or `backup`, ASCII case
/// ignored) rather than an image to flash.
pub fn is_clone_mode(mode: &str) -> (r: bool)
    ensures
        r == (crate::text::eq_ignore_ascii_case_seq(mode@, "clone"@)
            || crate::text::eq_ignore_ascii_case_seq(mode@, "backup"@)),
{
    crate::text::eq_ignore_ascii_case(mode, "clone") || crate::text::eq_ignore_ascii_case(
        mode,
        "backup",
    )
}

/// The title of the image file dialog.
pub fn image_dialog_title(is_clone: bool) -> (r: &'static str)
    ensures
        r@ == if is_clone {
            "Choose output image file"@
        } else {
            "Choose image to flash"@
        },
{
    if is_clone {
        "Choose output image file"
    } else {
        "Choose image to flash"
    }
}

// ---------------------------------------------------------------------------
// The diagnostics record
// ---------------------------------------------------------------------------
/// What the host found out about its environment at startup.
#[derive(Debug, Clone)]
pub struct StartupProbe {
    pub platform: Platform,
    /// `platform_name` of the platform.
    pub platform_name: String,
    /// `platform_environment` of the platform.
    pub desktop_environment: String,
    pub current_user: String,
    /// Whether the process has privileged access.
    pub privileged: bool,
    /// The polkit agent found (not used on Windows).
    pub polkit_agent: Option<String>,
    /// Whether that agent is an executable file.
    pub polkit_agent_executable: bool,
}

/// Startup diagnostics shown in the privilege badge.
#[derive(Debug, Clone)]
pub struct StartupDiagnostics {
    pub platform: String,
    pub desktop_environment: String,
    pub current_user: String,
    pub is_elevated: bool,
    pub elevation_method: String,
    pub elevation_agent: Option<String>,
    pub elevation_ready: bool,
    pub elevation_status: String,
    pub spawn_mode: String,
    pub litho_spawn_preview: String,
    /// Legacy alias for `is_elevated` (Linux root / Windows Administrator).
    pub is_root: bool,
    /// Legacy alias for `elevation_agent` on Linux (polkit agent path).
    pub polkit_agent_path: Option<String>,
    /// Legacy alias for `elevation_ready`.
    pub polkit_agent_is_executable: bool,
    /// Legacy alias for `elevation_status`.
    pub polkit_status: String,
}

/// The elevation agent reported for a probe.
pub open spec fn agent_spec(probe: StartupProbe) -> Option<Seq<char>> {
    if probe.platform == Platform::Windows {
        Some("UAC (User Account Control)"@)
    } else {
        match probe.polkit_agent {
            Some(a) => Some(a@),
            None => None,
        }
    }
}

/// Whether elevation is reported ready for a probe.
pub open spec fn ready_spec(probe: StartupProbe) -> bool {
    probe.platform == Platform::Windows || (probe.polkit_agent is Some
        && probe.polkit_agent_executable)
}

/// The elevation status reported for a probe.
pub open spec fn status_spec(probe: StartupProbe) -> Seq<char> {
    if probe.platform == Platform::Windows {
        if probe.privileged {
            "Running elevated (Administrator). Flash/clone operations will run directly."@
        } else {
            "UAC available. Litho will request administrator approval when an operation starts."@
        }
    } else if ready_spec(probe) {
        "Polkit agent present. Elevation deferred until operation is requested."@
    } else {
        "No usable polkit authentication agent detected at startup."@
    }
}


/// The diagnostics for a probe and, when it was located, the sidecar path.
pub open spec fn diagnostics_match(d: StartupDiagnostics, probe: StartupProbe, sidecar: Option<
    Seq<char>,
>) -> bool {
    &&& d.platform@ == probe.platform_name@
    &&& d.desktop_environment@ == probe.desktop_environment@
    &&& d.current_user@ == probe.current_user@
    &&& d.is_elevated == probe.privileged
    &&& d.elevation_method@ == elevation_method_spec(probe.platform)
    &&& opt_view(d.elevation_agent) == agent_spec(probe)
    &&& d.elevation_ready == ready_spec(probe)
    &&& d.elevation_status@ == status_spec(probe)
    &&& d.spawn_mode@ == spawn_mode_spec(probe.platform, probe.privileged)
    &&& d.litho_spawn_preview@ == spawn_preview_spec(
        match sidecar {
            Some(p) => p,
            None => "<litho-sidecar>"@,
        },
        probe.privileged,
        probe.platform,
    )
    &&& d.is_root == d.is_elevated
    &&& opt_view(d.polkit_agent_path) == opt_view(d.elevation_agent)
    &&& d.polkit_agent_is_executable == d.elevation_ready
    &&& d.polkit_status@ == d.elevation_status@
}

fn clone_opt(o: &Option<String>) -> (r: Option<String>)
    ensures
        opt_view(r) == opt_view(*o),
{
    match o {
        Some(s) => Some(owned(s.as_str())),
        None => None,
    }
}

/// Builds the startup diagnostics from what the host probed and the sidecar
/// path, when it was located.
pub fn perform_startup_checks_with_sidecar(probe: &StartupProbe, sidecar: Option<&str>) -> (r:
    StartupDiagnostics)
    ensures
        diagnostics_match(
            r,
            *probe,
            match sidecar {
                Some(p) => Some(p@),
                None => None,
            },
        ),
{
    let is_elevated = probe.privileged;
    let (elevation_agent, elevation_ready, elevation_status) = match probe.platform {
        Platform::Windows => {
            let status = if is_elevated {
                owned(
                    "Running elevated (Administrator). Flash/clone operations will run directly.",
                )
            } else {
                owned(
                    "UAC available. Litho will request administrator approval when an operation starts.",
                )
            };
            (Some(owned("UAC (User Account Control)")), true, status)
        },
        _ => {
            let agent = clone_opt(&probe.polkit_agent);
            let ready = probe.polkit_agent.is_some() && probe.polkit_agent_executable;
            let status = if ready {
                owned("Polkit agent present. Elevation deferred until operation is requested.")
            } else {
                owned("No usable polkit authentication agent detected at startup.")
            };
            (agent, ready, status)
        },
    };
    let litho_spawn_preview = match sidecar {
        Some(path) => litho_spawn_preview(path, is_elevated, probe.platform),
        None => litho_spawn_preview_unresolved(is_elevated, probe.platform),
    };
    StartupDiagnostics {
        platform: owned(probe.platform_name.as_str()),
        desktop_environment: owned(probe.desktop_environment.as_str()),
        current_user: owned(probe.current_user.as_str()),
        is_elevated,
        elevation_method: owned(elevation_method(probe.platform)),
        elevation_agent: clone_opt(&elevation_agent),
        elevation_ready,
        elevation_status: owned(elevation_status.as_str()),
        spawn_mode: owned(spawn_mode(probe.platform, is_elevated)),
        litho_spawn_preview,
        is_root: is_elevated,
        polkit_agent_path: elevation_agent,
        polkit_agent_is_executable: elevation_ready,
        polkit_status: elevation_status,
    }
}

/// The diagnostics before the sidecar is located.
pub fn perform_startup_checks(probe: &StartupProbe) -> (r: StartupDiagnostics)
    ensures
        diagnostics_match(r, *probe, None),
{
    perform_startup_checks_with_sidecar(probe, None)
}

/// The legacy fields of the diagnostics always repeat the current ones, and
/// the status is never empty.
pub proof fn lemma_diagnostics_aliases(
    d: StartupDiagnostics,
    probe: StartupProbe,
    sidecar: Option<Seq<char>>,
)
    requires
        diagnostics_match(d, probe, sidecar),
    ensures
        d.is_root == d.is_elevated,
        opt_view(d.polkit_agent_path) == opt_view(d.elevation_agent),
        d.polkit_agent_is_executable == d.elevation_ready,
        d.polkit_status@ == d.elevation_status@,
        d.elevation_status@.len() > 0,
{
    reveal_strlit("Running elevated (Administrator). Flash/clone operations will run directly.");
    reveal_strlit(
        "UAC available. Litho will request administrator approval when an operation starts.",
    );
    reveal_strlit("Polkit agent present. Elevation deferred until operation is requested.");
    reveal_strlit("No usable polkit authentication agent detected at startup.");
}

/// The known agent locations follow the desktop named in lower case `de`:
/// GNOME's agent for a name with `gnome`; otherwise KDE's for `kde` or
/// `plasma`; then XFCE's for `xfce`, MATE's for `mate`, LXDE/LXQt's for `lx`
/// or `lubuntu`, Cinnamon's for `cinnamon`; and a generic list for any other
/// name.
pub proof fn lemma_agent_fallbacks_follow_desktop(de: Seq<char>)
    ensures
        contains_seq(de, "gnome"@) ==> agent_fallbacks(de) == seq![
            "/usr/libexec/polkit-gnome-authentication-agent-1"@,
            "/usr/lib/polkit-gnome/polkit-gnome-authentication-agent-1"@,
            "/usr/lib/gnome-polkit/polkit-gnome-authentication-agent-1"@,
        ],
        !contains_seq(de, "gnome"@) && (contains_seq(de, "kde"@) || contains_seq(de, "plasma"@))
            ==> agent_fallbacks(de) == seq![
            "/usr/libexec/polkit-kde-authentication-agent-1"@,
            "/usr/lib/polkit-kde-authentication-agent-1"@,
            "/usr/lib/x86_64-linux-gnu/libexec/polkit-kde-authentication-agent-1"@,
        ],
        !contains_seq(de, "gnome"@) && !contains_seq(de, "kde"@) && !contains_seq(de, "plasma"@)
            && contains_seq(de, "xfce"@) ==> agent_fallbacks(de) == seq![
            "/usr/libexec/xfce-polkit"@,
            "/usr/lib/xfce4/polkit/xfce-polkit"@,
            "/usr/bin/xfce-polkit"@,
        ],
        !contains_seq(de, "gnome"@) && !contains_seq(de, "kde"@) && !contains_seq(de, "plasma"@)
            && !contains_seq(de, "xfce"@) && contains_seq(de, "mate"@) ==> agent_fallbacks(de)
            == seq![
            "/usr/libexec/polkit-mate-authentication-agent-1"@,
            "/usr/lib/mate-polkit/polkit-mate-authentication-agent-1"@,
        ],
        !contains_seq(de, "gnome"@) && !contains_seq(de, "kde"@) && !contains_seq(de, "plasma"@)
            && !contains_seq(de, "xfce"@) && !contains_seq(de, "mate"@) && (contains_seq(
            de,
            "lx"@,
        ) || contains_seq(de, "lubuntu"@)) ==> agent_fallbacks(de) == seq![
            "/usr/bin/lxpolkit"@,
            "/usr/libexec/lxpolkit"@,
            "/usr/lib/lxpolkit/lxpolkit"@,
        ],
        !contains_seq(de, "gnome"@) && !contains_seq(de, "kde"@) && !contains_seq(de, "plasma"@)
            && !contains_seq(de, "xfce"@) && !contains_seq(de, "mate"@) && !contains_seq(
            de,
            "lx"@,
        ) && !contains_seq(de, "lubuntu"@) && contains_seq(de, "cinnamon"@) ==> agent_fallbacks(
            de,
        ) == seq!["/usr/libexec/cinnamon-polkit"@, "/usr/bin/cinnamon-polkit"@],
        !contains_seq(de, "gnome"@) && !contains_seq(de, "kde"@) && !contains_seq(de, "plasma"@)
            && !contains_seq(de, "xfce"@) && !contains_seq(de, "mate"@) && !contains_seq(
            de,
            "lx"@,
        ) && !contains_seq(de, "lubuntu"@) && !contains_seq(de, "cinnamon"@) ==> agent_fallbacks(
            de,
        ) == seq![
            "/usr/libexec/polkit-gnome-authentication-agent-1"@,
            "/usr/libexec/polkit-kde-authentication-agent-1"@,
            "/usr/libexec/polkit-mate-authentication-agent-1"@,
            "/usr/bin/lxpolkit"@,
            "/usr/libexec/xfce-polkit"@,
        ],
{
    reveal_strlit("lx");
    reveal_strlit("lxd");
    reveal_strlit("d");
    assert("lxd"@ =~= "lx"@ + "d"@);
    if contains_seq(de, "lxd"@) {
        crate::text::lemma_contains_prefix_part(de, "lx"@, "d"@);
    }
}

/// Without `ps` output, the search order is exactly the known locations for
/// the desktop's name in lower case; with it, the agents found in `ps` come
/// first and those locations follow.
pub proof fn lemma_search_order_ends_with_fallbacks(ps_stdout: Option<Seq<char>>, desktop: Seq<char>)
    ensures
        ps_stdout is None ==> agent_search_order(ps_stdout, desktop) == agent_fallbacks(
            lowercase_of(desktop),
        ),
        agent_search_order(ps_stdout, desktop).len() >= agent_fallbacks(lowercase_of(desktop)).len(),
        agent_search_order(ps_stdout, desktop).skip(
            agent_search_order(ps_stdout, desktop).len() - agent_fallbacks(
                lowercase_of(desktop),
            ).len(),
        ) == agent_fallbacks(lowercase_of(desktop)),
{
    let f = agent_fallbacks(lowercase_of(desktop));
    let s = agent_search_order(ps_stdout, desktop);
    if ps_stdout is None {
        assert(s =~= f);
    }
    assert(s.skip(s.len() - f.len()) =~= f);
}

/// The executable path of a `ps` line is its first word that starts with
/// `/` and contains `polkit`; there is none exactly when no word does.
pub proof fn lemma_first_polkit_path_is_first_match(ws: Seq<Seq<char>>)
    ensures
        match first_polkit_path(ws) {
            Some(p) => exists|i: int|
                0 <= i < ws.len() && ws[i] == p && has_prefix_at(p, 0, "/"@) && contains_seq(
                    p,
                    "polkit"@,
                ) && forall|j: int|
                    0 <= j < i ==> !(has_prefix_at(#[trigger] ws[j], 0, "/"@) && contains_seq(
                        ws[j],
                        "polkit"@,
                    )),
            None => forall|j: int|
                0 <= j < ws.len() ==> !(has_prefix_at(#[trigger] ws[j], 0, "/"@) && contains_seq(
                    ws[j],
                    "polkit"@,
                )),
        },
    decreases ws.len(),
{
    if ws.len() > 0 {
        let t = ws.drop_first();
        lemma_first_polkit_path_is_first_match(t);
        if is_polkit_path(ws[0]) {
            assert(ws[0] == ws[0]);
        } else {
            match first_polkit_path(t) {
                Some(p) => {
                    let i = choose|i: int|
                        0 <= i < t.len() && t[i] == p && has_prefix_at(p, 0, "/"@) && contains_seq(
                            p,
                            "polkit"@,
                        ) && forall|j: int|
                            0 <= j < i ==> !(has_prefix_at(#[trigger] t[j], 0, "/"@)
                                && contains_seq(t[j], "polkit"@));
                    assert(ws[i + 1] == p);
                    assert forall|j: int| 0 <= j < i + 1 implies !(has_prefix_at(
                        #[trigger] ws[j],
                        0,
                        "/"@,
                    ) && contains_seq(ws[j], "polkit"@)) by {
                        if j > 0 {
                            assert(ws[j] == t[j - 1]);
                        }
                    }
                },
                None => {
                    assert forall|j: int| 0 <= j < ws.len() implies !(has_prefix_at(
                        #[trigger] ws[j],
                        0,
                        "/"@,
                    ) && contains_seq(ws[j], "polkit"@)) by {
                        if j > 0 {
                            assert(ws[j] == t[j - 1]);
                        }
                    }
                },
            }
        }
    }
}

/// Agents are read from `ps` output line by line, in order: the agents of
/// two stretches of lines are those of the first followed by those of the
/// second. A line gives an agent exactly when, in lower case, it contains
/// `polkit` and `agent`, and it has a polkit path word; that word is the agent.
pub proof fn lemma_agents_in_ps_by_line(a: Seq<Seq<char>>, b: Seq<Seq<char>>, line: Seq<char>)
    ensures
        agents_in_ps(a + b) == agents_in_ps(a) + agents_in_ps(b),
        agents_in_ps(seq![line]) == if contains_seq(lowercase_of(line), "polkit"@) && contains_seq(
            lowercase_of(line),
            "agent"@,
        ) {
            match first_polkit_path(words_of(line)) {
                Some(p) => seq![p],
                None => Seq::empty(),
            }
        } else {
            Seq::<Seq<char>>::empty()
        },
    decreases a.len(),
{
    if a.len() > 0 {
        lemma_agents_in_ps_by_line(a.drop_first(), b, line);
        assert((a + b).drop_first() =~= a.drop_first() + b);
        assert((a + b)[0] == a[0]);
    } else {
        assert(a + b =~= b);
    }
    let l = lowercase_of(line);
    reveal_strlit("agent");
    reveal_strlit("-authentication-agent");
    assert("-authentication-agent"@ =~= "-authentication-"@ + "agent"@) by {
        reveal_strlit("-authentication-");
    }
    if contains_seq(l, "-authentication-agent"@) {
        let i = choose|i: int| #[trigger] has_prefix_at(l, i, "-authentication-agent"@);
        assert(l.subrange(i + 16, i + 21) =~= "-authentication-agent"@.subrange(16, 21));
        assert("-authentication-agent"@.subrange(16, 21) =~= "agent"@);
        assert(has_prefix_at(l, i + 16, "agent"@));
    }
    let one = seq![line];
    assert(one.drop_first() =~= Seq::<Seq<char>>::empty());
    assert(agents_in_ps(one.drop_first()) == Seq::<Seq<char>>::empty());
    assert(mentions_polkit_agent(l) == (contains_seq(l, "polkit"@) && contains_seq(l, "agent"@)));
    assert(one[0] == line);
    match first_polkit_path(words_of(line)) {
        Some(p) => {
            assert(seq![p] + Seq::<Seq<char>>::empty() =~= seq![p]);
        },
        None => {},
    }
}

/// The startup record follows the probe: the elevation method is `pkexec` on
/// Linux, `uac` on Windows and `unsupported` elsewhere; operations run
/// directly when privileged, else through a UAC relaunch on Windows or the
/// elevation method; elevation is ready on Windows, elsewhere exactly when an
/// agent was found and is executable; on Windows the agent is UAC; the
/// preview starts with the sidecar, `pkexec ` or the UAC relaunch as the
/// route says and ends with litho's arguments; the legacy fields repeat
/// their counterparts.
pub proof fn lemma_startup_record(d: StartupDiagnostics, probe: StartupProbe, sidecar: Option<Seq<char>>)
    requires
        diagnostics_match(d, probe, sidecar),
    ensures
        d.elevation_method@ == match probe.platform {
            Platform::Linux => "pkexec"@,
            Platform::Windows => "uac"@,
            Platform::Other => "unsupported"@,
        },
        d.spawn_mode@ == if probe.privileged {
            "direct"@
        } else if probe.platform == Platform::Windows {
            "uac-relaunch"@
        } else {
            d.elevation_method@
        },
        d.elevation_ready == (probe.platform == Platform::Windows || (probe.polkit_agent is Some
            && probe.polkit_agent_executable)),
        probe.platform == Platform::Windows ==> opt_view(d.elevation_agent) == Some(
            "UAC (User Account Control)"@,
        ),
        probe.platform != Platform::Windows ==> opt_view(d.elevation_agent) == opt_view(
            probe.polkit_agent,
        ),
        ({
            let side = match sidecar {
                Some(p) => p,
                None => "<litho-sidecar>"@,
            };
            let args = "-o gui <flash|clone> -f <image> -d <device> -b <block_size> --cancel-file <path> [--verify] [--yes]"@;
            &&& probe.privileged ==> d.litho_spawn_preview@ == side + " "@ + args
            &&& !probe.privileged && probe.platform != Platform::Windows ==> d.litho_spawn_preview@
                == "pkexec "@ + side + " "@ + args
            &&& !probe.privileged && probe.platform == Platform::Windows
                ==> d.litho_spawn_preview@ == "UAC runas → lithographer --auto-run … → "@ + side
                + " "@ + args
        }),
        d.is_root == d.is_elevated && d.is_elevated == probe.privileged,
        d.polkit_agent_is_executable == d.elevation_ready,
        d.polkit_status@ == d.elevation_status@,
        d.platform@ == probe.platform_name@,
        d.desktop_environment@ == probe.desktop_environment@,
        d.current_user@ == probe.current_user@,
{
}

/// The startup note warns exactly when the process is not privileged and
/// elevation is not ready; on Linux that warning has three lines, every
/// other note one line.
pub proof fn lemma_startup_note_warns(platform: Platform, is_elevated: bool, elevation_ready: bool)
    ensures
        startup_note_spec(platform, is_elevated, elevation_ready).0 == (!is_elevated
            && !elevation_ready),
        startup_note_spec(platform, is_elevated, elevation_ready).1.len() == if !is_elevated
            && !elevation_ready && platform != Platform::Windows {
            3int
        } else {
            1int
        },
        is_elevated ==> startup_note_spec(platform, is_elevated, elevation_ready).1[0] == if platform
            == Platform::Windows {
            "Note: App is running elevated. Litho sidecar will be spawned directly."@
        } else {
            "Note: App is running as root. Litho sidecar will be spawned directly."@
        },
        !is_elevated && !elevation_ready ==> startup_note_spec(platform, is_elevated, elevation_ready).1[0]
            == if platform == Platform::Windows {
            "WARNING: Administrator elevation (UAC) is not available."@
        } else {
            "WARNING: No usable polkit authentication agent found."@
        },
        !is_elevated && elevation_ready ==> startup_note_spec(platform, is_elevated, elevation_ready).1[0]
            == if platform == Platform::Windows {
            "UAC looks ready. Litho will prompt for administrator approval per operation."@
        } else {
            "Polkit agent looks ready for privilege escalation requests."@
        },
{
}

/// Splitting into words: a text without whitespace that is not empty is one
/// word, and whitespace between two texts splits them, so that the words of
/// the whole are the words of the first followed by those of the second.
pub proof fn lemma_words_split_at_whitespace(a: Seq<char>, c: char, b: Seq<char>)
    ensures
        a.len() > 0 && (forall|i: int| 0 <= i < a.len() ==> !is_ws(a[i])) ==> words_of(a) == seq![a],
        is_ws(c) ==> words_of(a + seq![c] + b) == words_of(a) + words_of(b),
    decreases a.len(),
{
    if a.len() > 0 && (forall|i: int| 0 <= i < a.len() ==> !is_ws(a[i])) {
        lemma_find_ws_unique(a, a.len() as int);
        assert(a.take(a.len() as int) =~= a);
        assert(a.skip(a.len() as int) =~= Seq::<char>::empty());
        assert(words_of(Seq::<char>::empty()) == Seq::<Seq<char>>::empty());
        assert(seq![a] + Seq::<Seq<char>>::empty() =~= seq![a]);
    }
    if is_ws(c) {
        let s = a + seq![c] + b;
        if a.len() == 0 {
            assert(s.drop_first() =~= b);
            assert(words_of(a) == Seq::<Seq<char>>::empty());
            assert(Seq::<Seq<char>>::empty() + words_of(b) =~= words_of(b));
        } else if is_ws(a[0]) {
            lemma_words_split_at_whitespace(a.drop_first(), c, b);
            assert(s.drop_first() =~= a.drop_first() + seq![c] + b);
        } else {
            lemma_find_ws(a);
            let e = find_ws(a);
            assert forall|j: int| 0 <= j < e implies !is_ws(s[j]) by {
                assert(s[j] == a[j]);
            }
            if e < a.len() {
                assert(s[e] == a[e]);
                lemma_find_ws_unique(s, e);
                lemma_words_split_at_whitespace(a.skip(e), c, b);
                assert(s.skip(e) =~= a.skip(e) + seq![c] + b);
                assert(s.take(e) =~= a.take(e));
                assert(words_of(a) == seq![a.take(e)] + words_of(a.skip(e)));
                assert(words_of(s) =~= words_of(a) + words_of(b));
            } else {
                assert(s[e] == c);
                lemma_find_ws_unique(s, e);
                assert(s.take(e) =~= a);
                assert(s.skip(e) =~= seq![c] + b);
                assert((seq![c] + b).drop_first() =~= b);
                assert(words_of(s.skip(e)) == words_of(b));
                assert(a.take(e) =~= a);
                assert(a.skip(e) =~= Seq::<char>::empty());
                assert(words_of(a) == seq![a] + words_of(Seq::<char>::empty()));
                assert(words_of(Seq::<char>::empty()) == Seq::<Seq<char>>::empty());
                assert(words_of(s) =~= words_of(a) + words_of(b));
            }
        }
    }
}

/// Splitting into lines: a text without a line feed that is not empty is one
/// line; a line feed ends the line before it (a carriage return just before
/// the line feed dropped) and the lines of the rest follow.
pub proof fn lemma_lines_split_at_newline(a: Seq<char>, b: Seq<char>)
    requires
        forall|i: int| 0 <= i < a.len() ==> a[i] != '\n',
    ensures
        a.len() > 0 ==> lines_of(a) == seq![a],
        lines_of(a + seq!['\n'] + b) == seq![
            if a.len() > 0 && a.last() == '\r' {
                a.drop_last()
            } else {
                a
            },
        ] + lines_of(b),
{
    crate::text::lemma_find_char_unique(a, '\n', a.len() as int);
    let s = a + seq!['\n'] + b;
    assert forall|j: int| 0 <= j < a.len() implies s[j] != '\n' by {
        assert(s[j] == a[j]);
    }
    assert(s[a.len() as int] == '\n');
    crate::text::lemma_find_char_unique(s, '\n', a.len() as int);
    assert(s.take(a.len() as int) =~= a);
    assert(s.skip(a.len() as int + 1) =~= b);
}

/// On Linux every polkit path word of every agent line is a candidate, line
/// by line in order: the words of two stretches of lines are those of the
/// first followed by those of the second, and a line that in lower case
/// contains `polkit` and `agent` gives its words that start with `/` and
/// contain `polkit`.
pub proof fn lemma_agent_words_by_line(a: Seq<Seq<char>>, b: Seq<Seq<char>>, line: Seq<char>)
    ensures
        agent_words_in_ps(a + b) == agent_words_in_ps(a) + agent_words_in_ps(b),
        agent_words_in_ps(seq![line]) == if contains_seq(lowercase_of(line), "polkit"@)
            && contains_seq(lowercase_of(line), "agent"@) {
            words_of(line).filter(
                |w: Seq<char>| has_prefix_at(w, 0, "/"@) && contains_seq(w, "polkit"@),
            )
        } else {
            Seq::<Seq<char>>::empty()
        },
    decreases a.len(),
{
    if a.len() > 0 {
        lemma_agent_words_by_line(a.drop_first(), b, line);
        assert((a + b).drop_first() =~= a.drop_first() + b);
        assert((a + b)[0] == a[0]);
    } else {
        assert(a + b =~= b);
    }
    let l = lowercase_of(line);
    reveal_strlit("agent");
    reveal_strlit("-authentication-agent");
    if contains_seq(l, "-authentication-agent"@) {
        let i = choose|i: int| #[trigger] has_prefix_at(l, i, "-authentication-agent"@);
        assert(l.subrange(i + 16, i + 21) =~= "-authentication-agent"@.subrange(16, 21));
        assert("-authentication-agent"@.subrange(16, 21) =~= "agent"@);
        assert(has_prefix_at(l, i + 16, "agent"@));
    }
    let one = seq![line];
    assert(one.drop_first() =~= Seq::<Seq<char>>::empty());
    assert(one[0] == line);
    assert(agent_words_in_ps(one.drop_first()) == Seq::<Seq<char>>::empty());
    let f1 = words_of(line).filter(|w: Seq<char>| is_polkit_path(w));
    let f2 = words_of(line).filter(
        |w: Seq<char>| has_prefix_at(w, 0, "/"@) && contains_seq(w, "polkit"@),
    );
    assert((|w: Seq<char>| is_polkit_path(w)) =~= (|w: Seq<char>|
        has_prefix_at(w, 0, "/"@) && contains_seq(w, "polkit"@)));
    assert(f1 + Seq::<Seq<char>>::empty() =~= f1);
}

} // verus!
