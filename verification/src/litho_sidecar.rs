//! Locating the litho sidecar: the candidate list without repeats, the
//! message when none exists, and the staging of a copy that `pkexec` can run.
use vstd::prelude::*;
use crate::text::{
    chars_of, contains_seq, decimal_chars, join_seqs, join_strings, owned, push_char, push_decimal,
    push_str, str_contains, str_eq, views,
};

verus! {

/// A path: its text, and the components by which paths compare (as
/// `Path::components` splits it).
#[derive(Debug, Clone)]
pub struct PathEntry {
    pub text: String,
    pub components: Vec<String>,
}

/// The mathematical value of a `PathEntry`.
pub struct PathView {
    pub text: Seq<char>,
    pub components: Seq<Seq<char>>,
}

impl View for PathEntry {
    type V = PathView;

    open spec fn view(&self) -> PathView {
        PathView { text: self.text@, components: views(self.components@) }
    }
}

/// The views of a sequence of paths.
pub open spec fn path_views(v: Seq<PathEntry>) -> Seq<PathView> {
    v.map_values(|p: PathEntry| p@)
}

/// Whether `paths` holds a path with the components `c`.
pub open spec fn has_components(paths: Seq<PathView>, c: Seq<Seq<char>>) -> bool {
    exists|k: int| 0 <= k < paths.len() && (#[trigger] paths[k]).components == c
}

/// `paths` with every path whose components repeat an earlier one left out.
pub open spec fn dedupe_spec(paths: Seq<PathView>) -> Seq<PathView>
    decreases paths.len(),
{
    if paths.len() == 0 {
        Seq::empty()
    } else {
        let d = dedupe_spec(paths.drop_last());
        if has_components(d, paths.last().components) {
            d
        } else {
            d.push(paths.last())
        }
    }
}

fn same_components(a: &Vec<String>, b: &Vec<String>) -> (r: bool)
    ensures
        r == (views(a@) == views(b@)),
{
    if a.len() != b.len() {
        assert(views(a@).len() != views(b@).len());
        return false;
    }
    let mut i: usize = 0;
    while i < a.len()
        invariant
            a@.len() == b@.len(),
            i <= a@.len(),
            forall|k: int| 0 <= k < i ==> a@[k]@ == b@[k]@,
        decreases a@.len() - i,
    {
        if !str_eq(a[i].as_str(), b[i].as_str()) {
            assert(views(a@)[i as int] != views(b@)[i as int]);
            return false;
        }
        i = i + 1;
    }
    assert(views(a@) =~= views(b@));
    true
}

fn copy_entry(p: &PathEntry) -> (r: PathEntry)
    ensures
        r@ == p@,
{
    let mut components: Vec<String> = Vec::new();
    let mut i: usize = 0;
    while i < p.components.len()
        invariant
            i <= p.components@.len(),
            views(components@) == views(p.components@).take(i as int),
        decreases p.components@.len() - i,
    {
        let ghost before = views(components@);
        components.push(owned(p.components[i].as_str()));
        assert(views(components@) =~= before.push(p.components@[i as int]@));
        assert(views(p.components@).take(i + 1) =~= views(p.components@).take(i as int).push(
            p.components@[i as int]@,
        ));
        i = i + 1;
    }
    assert(views(p.components@).take(p.components@.len() as int) =~= views(p.components@));
    PathEntry { text: owned(p.text.as_str()), components }
}

/// Leaves out paths whose components repeat those of an earlier path (as
/// `PathBuf` equality does), keeping the first occurrences in their order.
pub fn dedupe_paths(paths: Vec<PathEntry>) -> (r: Vec<PathEntry>)
    ensures
        path_views(r@) == dedupe_spec(path_views(paths@)),
{
    let mut out: Vec<PathEntry> = Vec::new();
    let mut i: usize = 0;
    assert(path_views(paths@).take(0) =~= Seq::<PathView>::empty());
    while i < paths.len()
        invariant
            i <= paths@.len(),
            path_views(out@) == dedupe_spec(path_views(paths@).take(i as int)),
        decreases paths@.len() - i,
    {
        let ghost prefix = path_views(paths@).take(i + 1);
        assert(prefix.drop_last() =~= path_views(paths@).take(i as int));
        assert(prefix.last() == paths@[i as int]@);
        let mut seen = false;
        let mut k: usize = 0;
        while k < out.len()
            invariant
                k <= out@.len(),
                i < paths@.len(),
                seen <==> exists|q: int|
                    0 <= q < k && views(out@[q].components@) == views(paths@[i as int].components@),
            decreases out@.len() - k,
        {
            if same_components(&out[k].components, &paths[i].components) {
                seen = true;
            }
            k = k + 1;
        }
        proof {
            let d = path_views(out@);
            if seen {
                let q = choose|q: int|
                    0 <= q < out@.len() && views(out@[q].components@) == views(
                        paths@[i as int].components@,
                    );
                assert(d[q].components == prefix.last().components);
                assert(has_components(d, prefix.last().components));
            } else {
                assert forall|q: int| 0 <= q < d.len() implies (#[trigger] d[q]).components
                    != prefix.last().components by {
                    assert(d[q] == out@[q]@);
                }
                assert(!has_components(d, prefix.last().components));
            }
        }
        if !seen {
            let ghost before = path_views(out@);
            out.push(copy_entry(&paths[i]));
            assert(path_views(out@) =~= before.push(paths@[i as int]@));
        }
        i = i + 1;
    }
    assert(path_views(paths@).take(paths@.len() as int) =~= path_views(paths@));
    out
}

/// What de-duplication keeps: no two paths with the same components, a path
/// for the components of every input path, and only input paths.
pub proof fn lemma_dedupe_paths(paths: Seq<PathView>)
    ensures
        forall|i: int, j: int|
            0 <= i < j < dedupe_spec(paths).len() ==> (#[trigger] dedupe_spec(paths)[i]).components
                != (#[trigger] dedupe_spec(paths)[j]).components,
        forall|k: int|
            0 <= k < paths.len() ==> has_components(dedupe_spec(paths), (#[trigger] paths[k]).components),
        forall|k: int|
            0 <= k < dedupe_spec(paths).len() ==> paths.contains(#[trigger] dedupe_spec(paths)[k]),
    decreases paths.len(),
{
    if paths.len() > 0 {
        let prev = paths.drop_last();
        lemma_dedupe_paths(prev);
        let d = dedupe_spec(prev);
        let r = dedupe_spec(paths);
        let x = paths.last();
        assert forall|k: int| 0 <= k < d.len() implies r[k] == d[k] by {
        }
        assert forall|i: int, j: int|
            0 <= i < j < r.len() implies (#[trigger] r[i]).components != (#[trigger] r[j]).components by {
            if !has_components(d, x.components) && j == d.len() {
                assert(r[i] == d[i]);
            }
        }
        assert forall|k: int|
            0 <= k < paths.len() implies has_components(r, (#[trigger] paths[k]).components) by {
            if k < paths.len() - 1 {
                assert(paths[k] == prev[k]);
                let q = choose|q: int| 0 <= q < d.len() && (#[trigger] d[q]).components
                    == prev[k].components;
                assert(r[q] == d[q]);
            } else if has_components(d, x.components) {
                let q = choose|q: int| 0 <= q < d.len() && (#[trigger] d[q]).components
                    == x.components;
                assert(r[q] == d[q]);
            } else {
                assert(r[d.len() as int] == x);
            }
        }
        assert forall|k: int| 0 <= k < r.len() implies paths.contains(#[trigger] r[k]) by {
            if k < d.len() {
                assert(prev.contains(d[k]));
                let q = choose|q: int| 0 <= q < prev.len() && prev[q] == d[k];
                assert(paths[q] == d[k]);
            } else {
                assert(paths[paths.len() - 1] == r[k]);
            }
        }
    }
}

/// De-duplication keeps first occurrences, in their order: each kept path
/// is the first input path with its components, and of two kept paths the
/// earlier one's components occur in the input before any occurrence of the
/// later one's.
pub proof fn lemma_dedupe_keeps_first_in_order(paths: Seq<PathView>)
    ensures
        forall|k: int|
            0 <= k < dedupe_spec(paths).len() ==> exists|i: int|
                0 <= i < paths.len() && paths[i] == #[trigger] dedupe_spec(paths)[k] && forall|j: int|
                    0 <= j < i ==> (#[trigger] paths[j]).components != paths[i].components,
        forall|k1: int, k2: int, i2: int|
            0 <= k1 < k2 < dedupe_spec(paths).len() && 0 <= i2 < paths.len() && (#[trigger] paths[i2]).components
                == (#[trigger] dedupe_spec(paths)[k2]).components ==> exists|i1: int|
                0 <= i1 < i2 && (#[trigger] paths[i1]).components == (#[trigger] dedupe_spec(paths)[k1]).components,
    decreases paths.len(),
{
    if paths.len() > 0 {
        let prev = paths.drop_last();
        lemma_dedupe_keeps_first_in_order(prev);
        lemma_dedupe_paths(prev);
        let d = dedupe_spec(prev);
        let r = dedupe_spec(paths);
        let x = paths.last();
        let n = prev.len() as int;
        let fresh = !has_components(d, x.components);
        assert forall|k: int| 0 <= k < d.len() implies r[k] == d[k] by {}
        assert forall|j: int| 0 <= j < n implies paths[j] == prev[j] by {}
        assert forall|k: int| 0 <= k < r.len() implies exists|i: int|
            0 <= i < paths.len() && paths[i] == #[trigger] r[k] && forall|j: int|
                0 <= j < i ==> (#[trigger] paths[j]).components != paths[i].components by {
            if k < d.len() {
                let i = choose|i: int|
                    0 <= i < prev.len() && prev[i] == #[trigger] d[k] && forall|j: int|
                        0 <= j < i ==> (#[trigger] prev[j]).components != prev[i].components;
                assert(paths[i] == r[k]);
                assert forall|j: int| 0 <= j < i implies (#[trigger] paths[j]).components
                    != paths[i].components by {
                    assert(prev[j] == paths[j]);
                }
            } else {
                assert(fresh && r[k] == x);
                assert(paths[n] == x);
                assert forall|j: int| 0 <= j < n implies (#[trigger] paths[j]).components
                    != paths[n].components by {
                    assert(has_components(d, prev[j].components));
                    if paths[j].components == x.components {
                        assert(prev[j].components == x.components);
                    }
                }
            }
        }
        assert forall|k1: int, k2: int, i2: int|
            0 <= k1 < k2 < r.len() && 0 <= i2 < paths.len() && (#[trigger] paths[i2]).components
                == (#[trigger] r[k2]).components implies exists|i1: int|
                0 <= i1 < i2 && (#[trigger] paths[i1]).components == (#[trigger] r[k1]).components by {
            assert(r[k1] == d[k1]);
            let w = choose|i: int|
                0 <= i < prev.len() && prev[i] == #[trigger] d[k1] && forall|j: int|
                    0 <= j < i ==> (#[trigger] prev[j]).components != prev[i].components;
            if k2 < d.len() {
                if i2 < n {
                    assert(prev[i2].components == d[k2].components);
                    let i1 = choose|i1: int|
                        0 <= i1 < i2 && (#[trigger] prev[i1]).components == (#[trigger] d[k1]).components;
                    assert(paths[i1] == prev[i1]);
                } else {
                    assert(paths[w] == prev[w]);
                    assert(paths[w].components == r[k1].components);
                }
            } else {
                if i2 < n {
                    assert(has_components(d, prev[i2].components));
                    assert(paths[i2] == prev[i2]);
                    assert(r[k2] == x);
                    assert(false);
                }
                assert(paths[w] == prev[w]);
                assert(paths[w].components == r[k1].components);
            }
        }
    }
}

// ---------------------------------------------------------------------------
// Candidate locations
// ---------------------------------------------------------------------------
/// `std::path::Path::join`: `base` joined with the relative path `rel` by
/// std's rules for the platform the library is built for (separators, drive
/// prefixes, verbatim paths). It is a function of its two arguments.
pub uninterp spec fn joined_path(base: Seq<char>, rel: Seq<char>) -> Seq<char>;

/// `base` joined with `rel` (`std::path::Path::join`). Both are strings, so
/// the joined path is one too and the conversion back keeps it as it is.
#[verifier::external_body]
fn join_path(base: &str, rel: &str) -> (r: String)
    ensures
        r@ == joined_path(base@, rel@),
{
    std::path::Path::new(base).join(rel).to_string_lossy().into_owned()
}

fn push_join(out: &mut Vec<String>, base: &str, rel: &str)
    ensures
        views(final(out)@) == views(old(out)@).push(joined_path(base@, rel@)),
{
    let ghost before = views(out@);
    out.push(join_path(base, rel));
    assert(views(out@) =~= before.push(joined_path(base@, rel@)));
}

fn rel_with_triple(prefix: &str, triple: &str) -> (r: String)
    ensures
        r@ == prefix@ + triple@,
{
    let mut s = owned(prefix);
    push_str(&mut s, triple);
    s
}

/// Where a bundled sidecar may be, in the order they are tried: under the
/// AppImage directory, the resource directory, the resource paths the
/// framework resolved, next to the executable (and `bin/litho` one level up),
/// and in the source tree. `triple` is the target triple of the build.
pub open spec fn candidate_spec(
    appdir: Option<Seq<char>>,
    resource_dir: Option<Seq<char>>,
    resolved: Seq<Seq<char>>,
    exe_dir: Option<Seq<char>>,
    exe_parent: Option<Seq<char>>,
    manifest_dir: Seq<char>,
    triple: Seq<char>,
) -> Seq<Seq<char>> {
    let from_appdir = match appdir {
        Some(a) => seq![
            joined_path(a, "usr/bin/litho"@),
            joined_path(a, "usr/bin/litho-"@ + triple),
            joined_path(a, "usr/lib/lithographer/binaries/litho-"@ + triple),
        ],
        None => Seq::empty(),
    };
    let from_resources = match resource_dir {
        Some(r) => seq![
            joined_path(r, "litho"@),
            joined_path(r, "litho-"@ + triple),
            joined_path(r, "binaries/litho-"@ + triple),
        ],
        None => Seq::empty(),
    };
    let from_exe = match exe_dir {
        Some(d) => seq![
            joined_path(d, "litho"@),
            joined_path(d, "litho-"@ + triple),
            joined_path(d, "binaries/litho-"@ + triple),
        ] + match exe_parent {
            Some(u) => seq![joined_path(u, "bin/litho"@)],
            None => Seq::empty(),
        },
        None => Seq::empty(),
    };
    from_appdir + from_resources + resolved + from_exe + seq![
        joined_path(manifest_dir, "binaries/litho-"@ + triple),
    ]
}

/// The candidates come in a fixed order: three under the AppImage directory
/// when there is one (`usr/bin/litho` first), three under the resource
/// directory when there is one, then the resolved resource paths as given,
/// three next to the executable when its directory is known (and
/// `bin/litho` one level up), and last the source tree's
/// `binaries/litho-<triple>`.
pub proof fn lemma_candidate_order(
    appdir: Option<Seq<char>>,
    resource_dir: Option<Seq<char>>,
    resolved: Seq<Seq<char>>,
    exe_dir: Option<Seq<char>>,
    exe_parent: Option<Seq<char>>,
    manifest_dir: Seq<char>,
    triple: Seq<char>,
)
    ensures
        ({
            let c = candidate_spec(
                appdir,
                resource_dir,
                resolved,
                exe_dir,
                exe_parent,
                manifest_dir,
                triple,
            );
            let na: int = if appdir is Some { 3 } else { 0 };
            let nr: int = if resource_dir is Some { 3 } else { 0 };
            let ne: int = if exe_dir is Some {
                if exe_parent is Some { 4 } else { 3 }
            } else {
                0
            };
            &&& c.len() == na + nr + resolved.len() + ne + 1
            &&& c.last() == joined_path(manifest_dir, "binaries/litho-"@ + triple)
            &&& forall|a: Seq<char>| appdir == Some(a) ==> c[0] == joined_path(a, "usr/bin/litho"@)
            &&& forall|r: Seq<char>| resource_dir == Some(r) ==> c[na] == joined_path(r, "litho"@)
                && c[na + 2] == joined_path(r, "binaries/litho-"@ + triple)
            &&& c.subrange(na + nr, na + nr + resolved.len()) == resolved
            &&& forall|d: Seq<char>| exe_dir == Some(d) ==> c[na + nr + resolved.len()] == joined_path(
                d,
                "litho"@,
            )
            &&& forall|d: Seq<char>, u: Seq<char>|
                exe_dir == Some(d) && exe_parent == Some(u) ==> c[na + nr + resolved.len() + 3]
                    == joined_path(u, "bin/litho"@)
        }),
{
    let c = candidate_spec(appdir, resource_dir, resolved, exe_dir, exe_parent, manifest_dir, triple);
    let na: int = if appdir is Some { 3 } else { 0 };
    let nr: int = if resource_dir is Some { 3 } else { 0 };
    assert(c.subrange(na + nr, na + nr + resolved.len()) =~= resolved);
}

/// Where a bundled sidecar may be, in the order they are tried (before
/// repeats are left out with `dedupe_paths`). `exe_parent` is the directory
/// above `exe_dir`; `resolved` lists the resource paths the framework
/// resolved for `binaries/litho-<triple>`, `litho` and `litho-<triple>`.
pub fn sidecar_candidates(
    appdir: Option<&str>,
    resource_dir: Option<&str>,
    resolved: &Vec<String>,
    exe_dir: Option<&str>,
    exe_parent: Option<&str>,
    manifest_dir: &str,
    triple: &str,
) -> (r: Vec<String>)
    ensures
        views(r@) == candidate_spec(
            match appdir {
                Some(a) => Some(a@),
                None => None,
            },
            match resource_dir {
                Some(a) => Some(a@),
                None => None,
            },
            views(resolved@),
            match exe_dir {
                Some(a) => Some(a@),
                None => None,
            },
            match exe_parent {
                Some(a) => Some(a@),
                None => None,
            },
            manifest_dir@,
            triple@,
        ),
{
    let mut out: Vec<String> = Vec::new();
    let ghost s0 = views(out@);
    match appdir {
        Some(a) => {
            push_join(&mut out, a, "usr/bin/litho");
            push_join(&mut out, a, rel_with_triple("usr/bin/litho-", triple).as_str());
            push_join(
                &mut out,
                a,
                rel_with_triple("usr/lib/lithographer/binaries/litho-", triple).as_str(),
            );
        },
        None => {},
    }
    let ghost s1 = views(out@);
    match resource_dir {
        Some(r) => {
            push_join(&mut out, r, "litho");
            push_join(&mut out, r, rel_with_triple("litho-", triple).as_str());
            push_join(&mut out, r, rel_with_triple("binaries/litho-", triple).as_str());
        },
        None => {},
    }
    let ghost s2 = views(out@);
    let mut i: usize = 0;
    while i < resolved.len()
        invariant
            i <= resolved@.len(),
            views(out@) == s2 + views(resolved@).take(i as int),
        decreases resolved@.len() - i,
    {
        let ghost before = views(out@);
        out.push(owned(resolved[i].as_str()));
        assert(views(out@) =~= before.push(resolved@[i as int]@));
        assert(views(resolved@).take(i + 1) =~= views(resolved@).take(i as int).push(
            resolved@[i as int]@,
        ));
        i = i + 1;
    }
    assert(views(resolved@).take(resolved@.len() as int) =~= views(resolved@));
    let ghost s3 = views(out@);
    match exe_dir {
        Some(d) => {
            push_join(&mut out, d, "litho");
            push_join(&mut out, d, rel_with_triple("litho-", triple).as_str());
            push_join(&mut out, d, rel_with_triple("binaries/litho-", triple).as_str());
            match exe_parent {
                Some(u) => push_join(&mut out, u, "bin/litho"),
                None => {},
            }
        },
        None => {},
    }
    let ghost s4 = views(out@);
    push_join(
        &mut out,
        manifest_dir,
        rel_with_triple("binaries/litho-", triple).as_str(),
    );
    assert(views(out@) =~= candidate_spec(
        match appdir {
            Some(a) => Some(a@),
            None => None,
        },
        match resource_dir {
            Some(a) => Some(a@),
            None => None,
        },
        views(resolved@),
        match exe_dir {
            Some(a) => Some(a@),
            None => None,
        },
        match exe_parent {
            Some(a) => Some(a@),
            None => None,
        },
        manifest_dir@,
        triple@,
    ));
    out
}

/// The error when no sidecar candidate exists; `tried` lists the candidates.
pub open spec fn not_found_message_spec(tried: Seq<Seq<char>>) -> Seq<char> {
    "litho sidecar not found. Searched:\n  - "@ + join_seqs(tried, "\n  - "@)
        + "\nRebuild with `npm run prepare-sidecar && npm run tauri:build`."@
}

/// The error when no sidecar candidate exists.
pub fn sidecar_not_found_message(tried: &Vec<String>) -> (r: String)
    ensures
        r@ == not_found_message_spec(views(tried@)),
{
    let mut m = owned("litho sidecar not found. Searched:\n  - ");
    let joined = join_strings(tried, "\n  - ");
    push_str(&mut m, joined.as_str());
    push_str(&mut m, "\nRebuild with `npm run prepare-sidecar && npm run tauri:build`.");
    m
}

/// Whether the sidecar must be copied out before `pkexec` can run it: when
/// running from an AppImage (the `APPIMAGE` variable is set, or the path lies
/// in a `/.mount_` FUSE mount).
pub fn needs_pkexec_staging(appimage_set: bool, sidecar_path: &str) -> (r: bool)
    ensures
        r == (appimage_set || contains_seq(sidecar_path@, "/.mount_"@)),
{
    appimage_set || str_contains(sidecar_path, "/.mount_")
}

/// The file name of the staged sidecar copy for process `pid`.
pub fn staged_sidecar_name(pid: u32) -> (r: String)
    ensures
        r@ == "lithographer-litho-"@ + decimal_chars(pid as nat),
{
    let mut s = owned("lithographer-litho-");
    push_decimal(&mut s, pid as u64);
    s
}

/// The not-found message lists every candidate that was tried, one per
/// line after "  - ", between its heading and the rebuild hint.
pub proof fn lemma_not_found_lists_candidates(tried: Seq<Seq<char>>, x: Seq<char>, y: Seq<char>)
    ensures
        not_found_message_spec(seq![x]) == "litho sidecar not found. Searched:\n  - "@ + x
            + "\nRebuild with `npm run prepare-sidecar && npm run tauri:build`."@,
        not_found_message_spec(tried.push(y)) == (if tried.len() == 0 {
            "litho sidecar not found. Searched:\n  - "@ + y
        } else {
            "litho sidecar not found. Searched:\n  - "@ + join_seqs(tried, "\n  - "@) + "\n  - "@ + y
        }) + "\nRebuild with `npm run prepare-sidecar && npm run tauri:build`."@,
{
    assert(seq![x].len() == 1);
    let p = tried.push(y);
    assert(p.drop_last() =~= tried);
    if tried.len() == 0 {
        assert(p =~= seq![y]);
    }
}

} // verus!
