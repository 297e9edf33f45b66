//! The feature gate: the run's configuration, read from the command-line
//! argument vector, and the banner under which it is reported.
//!
//! The process's argument vector is read outside the library and handed in
//! as plain strings; coloring the feature names is likewise left to the
//! caller.

use vstd::prelude::*;
use crate::text::string_eq_str;

verus! {

/// The features of one run, each toggled by its long command-line flag.
#[derive(Clone, Copy, Debug, PartialEq, Eq, Structural)]
pub struct AppConfig {
    pub use_local: bool,
    pub use_ki: bool,
    pub use_clipboard: bool,
    pub use_py: bool,
    pub use_db: bool,
    pub use_sqlite: bool,
}

impl AppConfig {
    /// A configuration with every feature set as given.
    pub fn new(
        use_local: bool,
        use_ki: bool,
        use_clipboard: bool,
        use_py: bool,
        use_db: bool,
        use_sqlite: bool,
    ) -> (c: Self)
        ensures
            c == (AppConfig { use_local, use_ki, use_clipboard, use_py, use_db, use_sqlite }),
    {
        AppConfig { use_local, use_ki, use_clipboard, use_py, use_db, use_sqlite }
    }
}

/// Whether `s` is one of the recognized flags.
pub open spec fn known_flag(s: Seq<char>) -> bool {
    ||| s == "--use_local"@
    ||| s == "--use_ki"@
    ||| s == "--use_clipboard"@
    ||| s == "--use_py"@
    ||| s == "--use_db"@
    ||| s == "--use_sqlite"@
}

/// The configuration denoted by an argument vector: each feature is on
/// exactly when its flag occurs.
pub open spec fn config_of(args: Seq<Seq<char>>) -> AppConfig {
    AppConfig {
        use_local: args.contains("--use_local"@),
        use_ki: args.contains("--use_ki"@),
        use_clipboard: args.contains("--use_clipboard"@),
        use_py: args.contains("--use_py"@),
        use_db: args.contains("--use_db"@),
        use_sqlite: args.contains("--use_sqlite"@),
    }
}

proof fn lemma_contains_take_step(s: Seq<Seq<char>>, i: int, x: Seq<char>)
    requires
        0 <= i < s.len(),
    ensures
        s.take(i + 1).contains(x) == (s.take(i).contains(x) || s[i] == x),
{
    if s.take(i + 1).contains(x) {
        let k = choose|k: int| 0 <= k < i + 1 && (#[trigger] s.take(i + 1)[k]) == x;
        if k < i {
            assert(s.take(i)[k] == x);
        }
    }
    if s.take(i).contains(x) {
        let k = choose|k: int| 0 <= k < i && (#[trigger] s.take(i)[k]) == x;
        assert(s.take(i + 1)[k] == x);
    }
    if s[i] == x {
        assert(s.take(i + 1)[i] == x);
    }
}

/// Reads the argument vector (after the program name) into a configuration.
/// Fails on the first argument that is not a recognized flag, naming its
/// position.
#[verifier::rlimit(50)]
pub fn get_app_config(args: &Vec<String>) -> (r: Result<AppConfig, usize>)
    ensures
        match r {
            Ok(c) => (forall|i: int| 0 <= i < args@.len() ==> known_flag(#[trigger] args@[i]@))
                && c == config_of(args.deep_view()),
            Err(ix) => ix < args@.len() && !known_flag(args@[ix as int]@) && forall|j: int|
                0 <= j < ix ==> known_flag(#[trigger] args@[j]@),
        },
{
    let ghost av = args.deep_view();
    proof {
        assert forall|i: int| 0 <= i < av.len() implies av[i] == args@[i]@ by {}
    }
    let mut c = AppConfig {
        use_local: false,
        use_ki: false,
        use_clipboard: false,
        use_py: false,
        use_db: false,
        use_sqlite: false,
    };
    let mut i: usize = 0;
    while i < args.len()
        invariant
            i <= args@.len(),
            av == args.deep_view(),
            av.len() == args@.len(),
            forall|k: int| 0 <= k < av.len() ==> #[trigger] av[k] == args@[k]@,
            forall|j: int| 0 <= j < i ==> known_flag(#[trigger] args@[j]@),
            c.use_local == av.take(i as int).contains("--use_local"@),
            c.use_ki == av.take(i as int).contains("--use_ki"@),
            c.use_clipboard == av.take(i as int).contains("--use_clipboard"@),
            c.use_py == av.take(i as int).contains("--use_py"@),
            c.use_db == av.take(i as int).contains("--use_db"@),
            c.use_sqlite == av.take(i as int).contains("--use_sqlite"@),
        decreases args@.len() - i,
    {
        proof {
            lemma_contains_take_step(av, i as int, "--use_local"@);
            lemma_contains_take_step(av, i as int, "--use_ki"@);
            lemma_contains_take_step(av, i as int, "--use_clipboard"@);
            lemma_contains_take_step(av, i as int, "--use_py"@);
            lemma_contains_take_step(av, i as int, "--use_db"@);
            lemma_contains_take_step(av, i as int, "--use_sqlite"@);
        }
        let a = &args[i];
        proof {
            assert(av[i as int] == a@);
        }
        let m_local = string_eq_str(a, "--use_local");
        let m_ki = string_eq_str(a, "--use_ki");
        let m_clipboard = string_eq_str(a, "--use_clipboard");
        let m_py = string_eq_str(a, "--use_py");
        let m_db = string_eq_str(a, "--use_db");
        let m_sqlite = string_eq_str(a, "--use_sqlite");
        if !(m_local || m_ki || m_clipboard || m_py || m_db || m_sqlite) {
            return Err(i);
        }
        if m_local {
            c.use_local = true;
        }
        if m_ki {
            c.use_ki = true;
        }
        if m_clipboard {
            c.use_clipboard = true;
        }
        if m_py {
            c.use_py = true;
        }
        if m_db {
            c.use_db = true;
        }
        if m_sqlite {
            c.use_sqlite = true;
        }
        i = i + 1;
    }
    proof {
        assert(av.take(av.len() as int) =~= av);
    }
    Ok(c)
}

/// The names of the enabled features, in the fixed reporting order.
pub open spec fn features_of(c: AppConfig) -> Seq<Seq<char>> {
    let a: Seq<Seq<char>> = if c.use_local {
        seq!["use_local"@]
    } else {
        Seq::empty()
    };
    let b: Seq<Seq<char>> = if c.use_ki {
        seq!["use_ki"@]
    } else {
        Seq::empty()
    };
    let d: Seq<Seq<char>> = if c.use_clipboard {
        seq!["use_clipboard"@]
    } else {
        Seq::empty()
    };
    let e: Seq<Seq<char>> = if c.use_py {
        seq!["use_py"@]
    } else {
        Seq::empty()
    };
    let f: Seq<Seq<char>> = if c.use_db {
        seq!["use_db"@]
    } else {
        Seq::empty()
    };
    let g: Seq<Seq<char>> = if c.use_sqlite {
        seq!["use_sqlite"@]
    } else {
        Seq::empty()
    };
    a + b + d + e + f + g
}

/// Lists the enabled features by name, in the fixed reporting order.
pub fn get_features_description(config: &AppConfig) -> (r: Vec<String>)
    ensures
        r.deep_view() == features_of(*config),
{
    let mut r: Vec<String> = Vec::new();
    if config.use_local {
        r.push("use_local".to_owned());
    }
    if config.use_ki {
        r.push("use_ki".to_owned());
    }
    if config.use_clipboard {
        r.push("use_clipboard".to_owned());
    }
    if config.use_py {
        r.push("use_py".to_owned());
    }
    if config.use_db {
        r.push("use_db".to_owned());
    }
    if config.use_sqlite {
        r.push("use_sqlite".to_owned());
    }
    proof {
        assert(r.deep_view() =~= features_of(*config));
    }
    r
}

/// The banner block shown at startup, reproduced exactly.
pub fn banner_text() -> (r: String)
    ensures
        r@
            == "\n    _____ ______ _    _      __  __            _      _______        _\n  / ____|  ____| |  | |    |  \\/  |          | |    |__   __|      | |\n | |    | |__  | |__| |    | \\  / | ___   ___| | __    | | ___  ___| |_\n | |    |  __| |  __  |    | |\\/| |/ _ \\ / __| |/ /    | |/ _ \\/ __| __|\n | |____| |____| |  | |    | |  | | (_) | (__|   <     | |  __/\\__ \\ |_\n  \\_____|______|_|  |_|    |_|  |_|\\___/ \\___|_|\\_\\    |_|\\___||___/\\__|\n                                                                   v1.5\n    Quiz by @TmS'htr_'hsuCryptographic\n\n For Certified Ethical Hacker Trainees            Last Updated November 2024\n----------------------------------------------------------------------------\n    "@,
{
    "\n    _____ ______ _    _      __  __            _      _______        _\n  / ____|  ____| |  | |    |  \\/  |          | |    |__   __|      | |\n | |    | |__  | |__| |    | \\  / | ___   ___| | __    | | ___  ___| |_\n | |    |  __| |  __  |    | |\\/| |/ _ \\ / __| |/ /    | |/ _ \\/ __| __|\n | |____| |____| |  | |    | |  | | (_) | (__|   <     | |  __/\\__ \\ |_\n  \\_____|______|_|  |_|    |_|  |_|\\___/ \\___|_|\\_\\    |_|\\___||___/\\__|\n                                                                   v1.5\n    Quiz by @TmS'htr_'hsuCryptographic\n\n For Certified Ethical Hacker Trainees            Last Updated November 2024\n----------------------------------------------------------------------------\n    ".to_owned()
}

/// The label before the joined feature names under the banner.
pub fn features_prefix() -> (r: String)
    ensures
        r@ == "Available features: "@,
{
    "Available features: ".to_owned()
}

/// The usage line shown when an argument is not recognized.
pub fn usage_text() -> (r: String)
    ensures
        r@
            == "Usage: ceh_quiz [--use_local] [--use_ki] [--use_clipboard] [--use_py] [--use_db] [--use_sqlite]"@,
{
    "Usage: ceh_quiz [--use_local] [--use_ki] [--use_clipboard] [--use_py] [--use_db] [--use_sqlite]".to_owned()
}

/// Whether local mode is on: the pool is read from disk and the
/// reachability probe is skipped.
pub fn is_use_local(config: &AppConfig) -> (r: bool)
    ensures
        r == config.use_local,
{
    config.use_local
}

/// Whether the language-model completion step is on.
pub fn is_use_ki(config: &AppConfig) -> (r: bool)
    ensures
        r == config.use_ki,
{
    config.use_ki
}

/// Whether clipboard import is on.
pub fn is_use_clipboard(config: &AppConfig) -> (r: bool)
    ensures
        r == config.use_clipboard,
{
    config.use_clipboard
}

/// Whether the speech helper is on.
pub fn is_use_py(config: &AppConfig) -> (r: bool)
    ensures
        r == config.use_py,
{
    config.use_py
}

/// Whether the database exporter is on.
pub fn is_use_db(config: &AppConfig) -> (r: bool)
    ensures
        r == config.use_db,
{
    config.use_db
}

/// Whether the embedded-store exporter is on.
pub fn is_use_sqlite(config: &AppConfig) -> (r: bool)
    ensures
        r == config.use_sqlite,
{
    config.use_sqlite
}

/// The default verbosity of diagnostics.
pub fn debug_default_level() -> (r: i8)
    ensures
        r == 10,
{
    10
}

/// The exact command line handed to the host's speech helper.
pub fn say_script(text: &str, voice_using: Option<&str>) -> (r: String)
    ensures
        r@ == "osascript -e 'say \""@ + text@ + "\" using \""@ + (match voice_using {
            Some(v) => v@,
            None => "Tingting"@,
        }) + ")\"'"@,
{
    let voice = match voice_using {
        Some(v) => v,
        None => "Tingting",
    };
    let mut r = String::new();
    r.append("osascript -e 'say \"");
    r.append(text);
    r.append("\" using \"");
    r.append(voice);
    r.append(")\"'");
    r
}

} // verus!
