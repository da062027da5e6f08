//! Command-line parameters with which Lithographer can be started (a file
//! manager "open with", or the elevated relaunch on Windows), and the rule
//! for opening a console on Windows.
use vstd::prelude::*;
use crate::litho_runner::{
    elevation_args_spec, subcommand_for_lowered, subcommand_spec,
};
use crate::text::{
    decimal_chars, has_prefix_at, is_digit, lemma_decimal_round_trip, lowercase_of, opt_view, owned,
    parse_unsigned, parse_usize, str_eq, str_starts_with, to_lowercase, unsigned_digits, views,
};

verus! {

/// Selections passed on the command line.
#[derive(Clone, Debug)]
pub struct LaunchParams {
    pub mode: Option<String>,
    pub device: Option<String>,
    pub image: Option<String>,
    pub auto_run: bool,
    pub verify: bool,
    pub block_size: Option<usize>,
}

/// The mathematical value of `LaunchParams`.
pub struct LaunchView {
    pub mode: Option<Seq<char>>,
    pub device: Option<Seq<char>>,
    pub image: Option<Seq<char>>,
    pub auto_run: bool,
    pub verify: bool,
    pub block_size: Option<usize>,
}


impl View for LaunchParams {
    type V = LaunchView;

    open spec fn view(&self) -> LaunchView {
        LaunchView {
            mode: opt_view(self.mode),
            device: opt_view(self.device),
            image: opt_view(self.image),
            auto_run: self.auto_run,
            verify: self.verify,
            block_size: self.block_size,
        }
    }
}

/// Nothing selected.
pub open spec fn no_params() -> LaunchView {
    LaunchView {
        mode: None,
        device: None,
        image: None,
        auto_run: false,
        verify: false,
        block_size: None,
    }
}

/// `text` read as a block size, if it is one.
pub open spec fn block_size_of(text: Seq<char>) -> Option<usize> {
    match parse_unsigned(text, usize::MAX as nat) {
        Some(n) => Some(n as usize),
        None => None,
    }
}

/// The parameters after reading `args[i..]` on top of `p`. An option that
/// takes a value (`--mode`/`-m`, `--device`/`-d`, `--image`/`-i`/`--file`,
/// `--block-size`/`-b`) takes the next argument whatever it is; a flag
/// (`--auto-run`, `--verify`) sets itself; an argument not starting with
/// `-` is the image, then the device, when they are not yet set; anything
/// else is skipped.
pub open spec fn launch_from(args: Seq<Seq<char>>, i: int, p: LaunchView) -> LaunchView
    decreases args.len() - i,
{
    if i < 0 || i >= args.len() {
        p
    } else {
        let a = args[i];
        let has_next = i + 1 < args.len();
        if a == "--mode"@ || a == "-m"@ {
            if has_next {
                launch_from(args, i + 2, LaunchView { mode: Some(args[i + 1]), ..p })
            } else {
                launch_from(args, i + 1, p)
            }
        } else if a == "--device"@ || a == "-d"@ {
            if has_next {
                launch_from(args, i + 2, LaunchView { device: Some(args[i + 1]), ..p })
            } else {
                launch_from(args, i + 1, p)
            }
        } else if a == "--image"@ || a == "-i"@ || a == "--file"@ {
            if has_next {
                launch_from(args, i + 2, LaunchView { image: Some(args[i + 1]), ..p })
            } else {
                launch_from(args, i + 1, p)
            }
        } else if a == "--block-size"@ || a == "-b"@ {
            if has_next {
                launch_from(
                    args,
                    i + 2,
                    LaunchView { block_size: block_size_of(args[i + 1]), ..p },
                )
            } else {
                launch_from(args, i + 1, p)
            }
        } else if a == "--auto-run"@ {
            launch_from(args, i + 1, LaunchView { auto_run: true, ..p })
        } else if a == "--verify"@ {
            launch_from(args, i + 1, LaunchView { verify: true, ..p })
        } else if !has_prefix_at(a, 0, "-"@) {
            if p.image is None {
                launch_from(args, i + 1, LaunchView { image: Some(a), ..p })
            } else if p.device is None {
                launch_from(args, i + 1, LaunchView { device: Some(a), ..p })
            } else {
                launch_from(args, i + 1, p)
            }
        } else {
            launch_from(args, i + 1, p)
        }
    }
}

/// The launch parameters for `args` (the arguments after the program name);
/// a given mode is normalised to "clone" (for `clone`/`backup` in any case)
/// or "flash".
pub open spec fn launch_params_spec(args: Seq<Seq<char>>) -> LaunchView {
    let p = launch_from(args, 0, no_params());
    LaunchView {
        mode: match p.mode {
            Some(m) => Some(subcommand_spec(lowercase_of(m))),
            None => None,
        },
        ..p
    }
}

/// Parses the arguments after the program name.
pub fn parse_launch_args(args: &Vec<String>) -> (r: LaunchParams)
    ensures
        r@ == launch_params_spec(views(args@)),
{
    let ghost a = views(args@);
    let mut params = LaunchParams {
        mode: None,
        device: None,
        image: None,
        auto_run: false,
        verify: false,
        block_size: None,
    };
    let n = args.len();
    let mut i: usize = 0;
    while i < n
        invariant
            n == args@.len(),
            a == views(args@),
            i <= n,
            launch_from(a, 0, no_params()) == launch_from(a, i as int, params@),
        decreases n - i,
    {
        let arg = args[i].as_str();
        let has_next = i + 1 < n;
        assert(a[i as int] == arg@);
        if str_eq(arg, "--mode") || str_eq(arg, "-m") {
            if has_next {
                params.mode = Some(args[i + 1].clone());
                i = i + 1;
            }
        } else if str_eq(arg, "--device") || str_eq(arg, "-d") {
            if has_next {
                params.device = Some(args[i + 1].clone());
                i = i + 1;
            }
        } else if str_eq(arg, "--image") || str_eq(arg, "-i") || str_eq(arg, "--file") {
            if has_next {
                params.image = Some(args[i + 1].clone());
                i = i + 1;
            }
        } else if str_eq(arg, "--block-size") || str_eq(arg, "-b") {
            if has_next {
                params.block_size = parse_usize(args[i + 1].as_str());
                i = i + 1;
            }
        } else if str_eq(arg, "--auto-run") {
            params.auto_run = true;
        } else if str_eq(arg, "--verify") {
            params.verify = true;
        } else if !str_starts_with(arg, "-") {
            if params.image.is_none() {
                params.image = Some(args[i].clone());
            } else if params.device.is_none() {
                params.device = Some(args[i].clone());
            }
        }
        i = i + 1;
    }
    let mode = match &params.mode {
        Some(m) => {
            let lower = to_lowercase(m.as_str());
            Some(owned(subcommand_for_lowered(lower.as_str())))
        },
        None => None,
    };
    LaunchParams { mode, ..params }
}

/// Handing a request to an elevated Lithographer loses nothing: the command
/// line built for the relaunch reads back as the same selections, with the
/// mode normalised, `--auto-run` set and the block size intact.
pub proof fn lemma_elevation_args_round_trip(
    mode: Seq<char>,
    device: Seq<char>,
    image: Seq<char>,
    block_size: usize,
    verify: bool,
    auto_unmount: bool,
)
    ensures
        launch_params_spec(
            elevation_args_spec(mode, device, image, block_size, verify, auto_unmount),
        ) == (LaunchView {
            mode: Some(subcommand_spec(lowercase_of(mode))),
            device: Some(device),
            image: Some(image),
            auto_run: true,
            verify,
            block_size: Some(block_size),
        }),
{
    reveal_strlit("--mode");
    reveal_strlit("-m");
    reveal_strlit("--device");
    reveal_strlit("-d");
    reveal_strlit("--image");
    reveal_strlit("-i");
    reveal_strlit("--file");
    reveal_strlit("--block-size");
    reveal_strlit("-b");
    reveal_strlit("--auto-run");
    reveal_strlit("--verify");
    reveal_strlit("--auto-unmount");
    reveal_strlit("-");
    assert("--mode"@.len() == 6);
    assert("-m"@.len() == 2);
    assert("--device"@.len() == 8);
    assert("-d"@.len() == 2);
    assert("--image"@.len() == 7);
    assert("-i"@.len() == 2);
    assert("--file"@.len() == 6);
    assert("--block-size"@.len() == 12);
    assert("-b"@.len() == 2);
    assert("--auto-run"@.len() == 10);
    assert("--verify"@.len() == 8);
    assert("--auto-unmount"@.len() == 14);
    assert("-"@.len() == 1);
    let args = elevation_args_spec(mode, device, image, block_size, verify, auto_unmount);
    let digits = decimal_chars(block_size as nat);
    lemma_decimal_round_trip(block_size as nat);
    assert(is_digit(digits[0]));
    assert(unsigned_digits(digits) == digits);
    assert(block_size_of(digits) == Some(block_size));
    let p0 = no_params();
    let p1 = LaunchView { mode: Some(mode), ..p0 };
    let p2 = LaunchView { device: Some(device), ..p1 };
    let p3 = LaunchView { image: Some(image), ..p2 };
    let p4 = LaunchView { block_size: Some(block_size), ..p3 };
    let p5 = LaunchView { auto_run: true, ..p4 };
    let p6 = LaunchView { verify, ..p5 };
    assert(args[0] == "--mode"@);
    assert(args[2] == "--device"@);
    assert(args[4] == "--image"@);
    assert(args[6] == "--block-size"@);
    assert(args[8] == "--auto-run"@);
    assert("--device"@ != "--mode"@ && "--device"@ != "-m"@);
    assert("--image"@ != "--mode"@);
    assert("--image"@ != "-m"@);
    assert("--image"@ != "--device"@);
    assert("--image"@ != "-d"@);
    assert("--block-size"@ != "--mode"@);
    assert("--block-size"@ != "-m"@);
    assert("--block-size"@ != "--device"@);
    assert("--block-size"@ != "-d"@);
    assert("--block-size"@ != "--image"@);
    assert("--block-size"@ != "-i"@);
    assert("--block-size"@ != "--file"@);
    assert("--auto-run"@ != "--mode"@);
    assert("--auto-run"@ != "-m"@);
    assert("--auto-run"@ != "--device"@);
    assert("--auto-run"@ != "-d"@);
    assert("--auto-run"@ != "--image"@);
    assert("--auto-run"@ != "-i"@);
    assert("--auto-run"@ != "--file"@);
    assert("--auto-run"@ != "--block-size"@);
    assert("--auto-run"@ != "-b"@);
    assert(launch_from(args, 0, p0) == launch_from(args, 2, p1));
    assert(launch_from(args, 2, p1) == launch_from(args, 4, p2));
    assert(launch_from(args, 4, p2) == launch_from(args, 6, p3));
    assert(launch_from(args, 6, p3) == launch_from(args, 8, p4));
    assert(launch_from(args, 8, p4) == launch_from(args, 9, p5));
    let after_verify = if verify {
        10int
    } else {
        9int
    };
    if verify {
        assert(args[9] == "--verify"@);
        assert("--verify"@ != "--mode"@ && "--verify"@ != "-m"@ && "--verify"@ != "--device"@
            && "--verify"@ != "-d"@ && "--verify"@ != "--image"@ && "--verify"@ != "-i"@
            && "--verify"@ != "--file"@ && "--verify"@ != "--block-size"@ && "--verify"@
            != "-b"@ && "--verify"@ != "--auto-run"@) by {
            assert("--verify"@[2] != "--device"@[2]);
        }
        assert(launch_from(args, 9, p5) == launch_from(args, 10, p6));
    } else {
        assert(p6 == p5);
    }
    assert(launch_from(args, 9, p5) == launch_from(args, after_verify, p6));
    if auto_unmount {
        let u = "--auto-unmount"@;
        assert(args[after_verify] == u);
        assert(u != "--mode"@ && u != "-m"@ && u != "--device"@ && u != "-d"@ && u
            != "--image"@ && u != "-i"@ && u != "--file"@ && u != "--block-size"@ && u
            != "-b"@ && u != "--auto-run"@ && u != "--verify"@);
        assert(has_prefix_at(u, 0, "-"@)) by {
            assert(u.subrange(0, 1) =~= "-"@);
        }
        assert(launch_from(args, after_verify, p6) == launch_from(args, after_verify + 1, p6));
        assert(args.len() == after_verify + 1);
    } else {
        assert(args.len() == after_verify);
    }
}

/// Whether the console variable (`LITHOGRAPHER_CONSOLE`) asks for a
/// console: it is set, not empty and not "0".
pub open spec fn console_requested(env: Option<Seq<char>>) -> bool {
    match env {
        Some(v) => v.len() > 0 && v != "0"@,
        None => false,
    }
}

/// Whether the console variable asks for a console.
pub fn console_env_requests(env: &Option<String>) -> (r: bool)
    ensures
        r == console_requested(opt_view(*env)),
{
    match env {
        Some(v) => {
            let text = v.as_str();
            let zero = str_eq(text, "0");
            proof {
                reveal_strlit("0");
            }
            !zero && crate::text::chars_of(text).len() > 0
        },
        None => false,
    }
}

/// Whether a Windows console should be attached: when the console variable
/// asks for one, or else unless this is the elevated relaunch (`--auto-run`
/// among the arguments after the program name), whose litho output streams
/// into the window instead.
pub fn launch_args_want_console(console_env: &Option<String>, args: &Vec<String>) -> (r: bool)
    ensures
        r == (console_requested(opt_view(*console_env)) || !views(args@).contains("--auto-run"@)),
{
    if console_env_requests(console_env) {
        return true;
    }
    let mut i: usize = 0;
    while i < args.len()
        invariant
            i <= args@.len(),
            !console_requested(opt_view(*console_env)),
            forall|k: int| 0 <= k < i ==> args@[k]@ != "--auto-run"@,
        decreases args@.len() - i,
    {
        if str_eq(args[i].as_str(), "--auto-run") {
            assert(views(args@)[i as int] == "--auto-run"@);
            assert(views(args@).contains("--auto-run"@));
            return false;
        }
        i = i + 1;
    }
    assert forall|k: int| 0 <= k < views(args@).len() implies views(args@)[k] != "--auto-run"@ by {
        assert(views(args@)[k] == args@[k]@);
    }
    true
}

proof fn lemma_option_literals()
    ensures
        "--mode"@ =~= seq!['-', '-', 'm', 'o', 'd', 'e'],
        "-m"@ =~= seq!['-', 'm'],
        "--device"@ =~= seq!['-', '-', 'd', 'e', 'v', 'i', 'c', 'e'],
        "-d"@ =~= seq!['-', 'd'],
        "--image"@ =~= seq!['-', '-', 'i', 'm', 'a', 'g', 'e'],
        "-i"@ =~= seq!['-', 'i'],
        "--file"@ =~= seq!['-', '-', 'f', 'i', 'l', 'e'],
        "--block-size"@ =~= seq!['-', '-', 'b', 'l', 'o', 'c', 'k', '-', 's', 'i', 'z', 'e'],
        "-b"@ =~= seq!['-', 'b'],
        "--auto-run"@ =~= seq!['-', '-', 'a', 'u', 't', 'o', '-', 'r', 'u', 'n'],
        "--verify"@ =~= seq!['-', '-', 'v', 'e', 'r', 'i', 'f', 'y'],
        "-"@ =~= seq!['-'],
{
    reveal_strlit("--mode");
    reveal_strlit("-m");
    reveal_strlit("--device");
    reveal_strlit("-d");
    reveal_strlit("--image");
    reveal_strlit("-i");
    reveal_strlit("--file");
    reveal_strlit("--block-size");
    reveal_strlit("-b");
    reveal_strlit("--auto-run");
    reveal_strlit("--verify");
    reveal_strlit("-");
}

/// Whether `a` is read as a positional argument (it does not start with `-`).
pub open spec fn is_positional(a: Seq<char>) -> bool {
    a.len() == 0 || a[0] != '-'
}

/// The mode a `--mode` value selects: "clone" for `clone` and `backup` in
/// any letter case, else "flash".
pub open spec fn selected_mode(v: Seq<char>) -> Seq<char> {
    if lowercase_of(v) == "clone"@ || lowercase_of(v) == "backup"@ {
        "clone"@
    } else {
        "flash"@
    }
}

/// Every option name and its short or alternative forms set the same field
/// to the value that follows: `--mode`/`-m` the mode, `--device`/`-d` the
/// device, `--image`/`-i`/`--file` the image, `--block-size`/`-b` the block
/// size (when the value is a number that fits); nothing else is set.
pub proof fn lemma_option_aliases(v: Seq<char>)
    ensures
        launch_params_spec(seq!["--mode"@, v]) == (LaunchView { mode: Some(selected_mode(v)), ..no_params() }),
        launch_params_spec(seq!["-m"@, v]) == (LaunchView { mode: Some(selected_mode(v)), ..no_params() }),
        launch_params_spec(seq!["--device"@, v]) == (LaunchView { device: Some(v), ..no_params() }),
        launch_params_spec(seq!["-d"@, v]) == (LaunchView { device: Some(v), ..no_params() }),
        launch_params_spec(seq!["--image"@, v]) == (LaunchView { image: Some(v), ..no_params() }),
        launch_params_spec(seq!["-i"@, v]) == (LaunchView { image: Some(v), ..no_params() }),
        launch_params_spec(seq!["--file"@, v]) == (LaunchView { image: Some(v), ..no_params() }),
        launch_params_spec(seq!["--block-size"@, v]) == (LaunchView {
            block_size: match parse_unsigned(v, usize::MAX as nat) {
                Some(n) => Some(n as usize),
                None => None,
            },
            ..no_params()
        }),
        launch_params_spec(seq!["-b"@, v]) == (LaunchView {
            block_size: match parse_unsigned(v, usize::MAX as nat) {
                Some(n) => Some(n as usize),
                None => None,
            },
            ..no_params()
        }),
{
    lemma_option_literals();
    let p = no_params();
    reveal_strlit("clone");
    reveal_strlit("backup");
    let a = seq!["--mode"@, v];
    assert(launch_from(a, 0, p) == launch_from(a, 2, LaunchView { mode: Some(v), ..p }));
    let a = seq!["-m"@, v];
    assert(launch_from(a, 0, p) == launch_from(a, 2, LaunchView { mode: Some(v), ..p }));
    let a = seq!["--device"@, v];
    assert(a[0] != "--mode"@ && a[0] != "-m"@) by {
        assert(a[0].len() != "--mode"@.len());
    }
    assert(launch_from(a, 0, p) == launch_from(a, 2, LaunchView { device: Some(v), ..p }));
    let a = seq!["-d"@, v];
    assert(a[0] != "-m"@) by {
        assert(a[0][1] != "-m"@[1]);
    }
    assert(launch_from(a, 0, p) == launch_from(a, 2, LaunchView { device: Some(v), ..p }));
    let a = seq!["--image"@, v];
    assert(launch_from(a, 0, p) == launch_from(a, 2, LaunchView { image: Some(v), ..p }));
    let a = seq!["-i"@, v];
    assert(a[0] != "-m"@ && a[0] != "-d"@) by {
        assert(a[0][1] != "-m"@[1] && a[0][1] != "-d"@[1]);
    }
    assert(launch_from(a, 0, p) == launch_from(a, 2, LaunchView { image: Some(v), ..p }));
    let a = seq!["--file"@, v];
    assert(a[0] != "--mode"@) by {
        assert(a[0][2] != "--mode"@[2]);
    }
    assert(launch_from(a, 0, p) == launch_from(a, 2, LaunchView { image: Some(v), ..p }));
    let a = seq!["--block-size"@, v];
    assert(launch_from(a, 0, p) == launch_from(a, 2, LaunchView { block_size: block_size_of(v), ..p }));
    let a = seq!["-b"@, v];
    assert(a[0] != "-m"@ && a[0] != "-d"@ && a[0] != "-i"@) by {
        assert(a[0][1] != "-m"@[1] && a[0][1] != "-d"@[1] && a[0][1] != "-i"@[1]);
    }
    assert(launch_from(a, 0, p) == launch_from(a, 2, LaunchView { block_size: block_size_of(v), ..p }));
}

proof fn lemma_positional_is_no_option(w: Seq<char>)
    requires
        is_positional(w),
    ensures
        !has_prefix_at(w, 0, "-"@),
        w != "--mode"@ && w != "-m"@ && w != "--device"@ && w != "-d"@ && w != "--image"@ && w
            != "-i"@ && w != "--file"@ && w != "--block-size"@ && w != "-b"@ && w != "--auto-run"@
            && w != "--verify"@,
{
    lemma_option_literals();
    if w.len() > 0 {
        assert(w.subrange(0, 1)[0] == w[0]);
    }
}

/// Arguments that do not start with `-` are the image and then the device,
/// also after options: `-d <device> <image>` and `<image> <device>` both
/// select that image and that device, and `-i <image> <device>` too.
pub proof fn lemma_positional_image_then_device(v: Seq<char>, w: Seq<char>, x: Seq<char>)
    requires
        is_positional(w),
        is_positional(x),
    ensures
        launch_params_spec(seq!["-d"@, v, w]) == (LaunchView {
            device: Some(v),
            image: Some(w),
            ..no_params()
        }),
        launch_params_spec(seq!["--device"@, v, w]) == (LaunchView {
            device: Some(v),
            image: Some(w),
            ..no_params()
        }),
        launch_params_spec(seq!["-i"@, v, w]) == (LaunchView {
            image: Some(v),
            device: Some(w),
            ..no_params()
        }),
        launch_params_spec(seq![w, x]) == (LaunchView {
            image: Some(w),
            device: Some(x),
            ..no_params()
        }),
{
    lemma_option_literals();
    lemma_positional_is_no_option(w);
    lemma_positional_is_no_option(x);
    let p = no_params();
    let a = seq!["-d"@, v, w];
    assert(a[0] != "-m"@) by {
        assert(a[0][1] != "-m"@[1]);
    }
    let p1 = LaunchView { device: Some(v), ..p };
    assert(launch_from(a, 0, p) == launch_from(a, 2, p1));
    assert(launch_from(a, 2, p1) == launch_from(a, 3, LaunchView { image: Some(w), ..p1 }));
    let a = seq!["--device"@, v, w];
    assert(a[0] != "--mode"@ && a[0] != "-m"@) by {
        assert(a[0].len() != "--mode"@.len());
    }
    assert(launch_from(a, 0, p) == launch_from(a, 2, p1));
    assert(launch_from(a, 2, p1) == launch_from(a, 3, LaunchView { image: Some(w), ..p1 }));
    let a = seq!["-i"@, v, w];
    assert(a[0] != "-m"@ && a[0] != "-d"@) by {
        assert(a[0][1] != "-m"@[1] && a[0][1] != "-d"@[1]);
    }
    let p2 = LaunchView { image: Some(v), ..p };
    assert(launch_from(a, 0, p) == launch_from(a, 2, p2));
    assert(launch_from(a, 2, p2) == launch_from(a, 3, LaunchView { device: Some(w), ..p2 }));
    let a = seq![w, x];
    let p3 = LaunchView { image: Some(w), ..p };
    assert(launch_from(a, 0, p) == launch_from(a, 1, p3));
    assert(launch_from(a, 1, p3) == launch_from(a, 2, LaunchView { device: Some(x), ..p3 }));
}

/// `--auto-run` and `--verify` set themselves; an option that takes a value
/// but has none, and any other argument starting with `-`, change nothing;
/// of two values for the same field the later one counts.
pub proof fn lemma_launch_flags_and_repeats(a: Seq<char>, v: Seq<char>, w: Seq<char>)
    ensures
        launch_params_spec(seq!["--auto-run"@]) == (LaunchView { auto_run: true, ..no_params() }),
        launch_params_spec(seq!["--verify"@]) == (LaunchView { verify: true, ..no_params() }),
        launch_params_spec(seq!["-d"@]) == no_params(),
        launch_params_spec(seq!["--image"@]) == no_params(),
        a.len() > 0 && a[0] == '-' && a != "--mode"@ && a != "-m"@ && a != "--device"@ && a
            != "-d"@ && a != "--image"@ && a != "-i"@ && a != "--file"@ && a != "--block-size"@
            && a != "-b"@ && a != "--auto-run"@ && a != "--verify"@ ==> launch_params_spec(seq![a])
            == no_params(),
        launch_params_spec(seq!["-d"@, v, "--device"@, w]) == (LaunchView {
            device: Some(w),
            ..no_params()
        }),
{
    lemma_option_literals();
    let p = no_params();
    let s = seq!["--auto-run"@];
    assert(launch_from(s, 0, p) == launch_from(s, 1, LaunchView { auto_run: true, ..p })) by {
        assert(s[0].len() == 10);
    }
    let s = seq!["--verify"@];
    assert(s[0] != "--device"@) by {
        assert(s[0][2] != "--device"@[2]);
    }
    assert(launch_from(s, 0, p) == launch_from(s, 1, LaunchView { verify: true, ..p }));
    let s = seq!["-d"@];
    assert(s[0] != "-m"@) by {
        assert(s[0][1] != "-m"@[1]);
    }
    assert(launch_from(s, 0, p) == launch_from(s, 1, p));
    let s = seq!["--image"@];
    assert(launch_from(s, 0, p) == launch_from(s, 1, p));
    let s = seq![a];
    if a.len() > 0 && a[0] == '-' && a != "--mode"@ && a != "-m"@ && a != "--device"@ && a
        != "-d"@ && a != "--image"@ && a != "-i"@ && a != "--file"@ && a != "--block-size"@ && a
        != "-b"@ && a != "--auto-run"@ && a != "--verify"@ {
        assert(a.subrange(0, 1) =~= "-"@);
        assert(has_prefix_at(a, 0, "-"@));
        assert(launch_from(s, 0, p) == launch_from(s, 1, p));
    }
    let s = seq!["-d"@, v, "--device"@, w];
    assert(s[0] != "-m"@) by {
        assert(s[0][1] != "-m"@[1]);
    }
    assert(s[2] != "--mode"@ && s[2] != "-m"@) by {
        assert(s[2].len() != "--mode"@.len());
    }
    let p1 = LaunchView { device: Some(v), ..p };
    assert(launch_from(s, 0, p) == launch_from(s, 2, p1));
    assert(launch_from(s, 2, p1) == launch_from(s, 4, LaunchView { device: Some(w), ..p1 }));
}

/// `LITHOGRAPHER_CONSOLE` asks for a console when it is set to anything but
/// the empty string or `0`; without that, a console is wanted unless the
/// process was started with `--auto-run`.
pub proof fn lemma_console_request(env: Option<Seq<char>>, args: Seq<Seq<char>>)
    ensures
        env is None ==> !console_requested(env),
        forall|v: Seq<char>|
            env == Some(v) ==> (console_requested(env) <==> (v.len() > 0 && v != "0"@)),
        !console_requested(env) ==> ((console_requested(env) || !args.contains("--auto-run"@))
            <==> forall|k: int| 0 <= k < args.len() ==> args[k] != "--auto-run"@),
{
}

} // verus!
