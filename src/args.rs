use vstd::prelude::*;
use vstd::string::*;

use crate::token::str_eq;

verus! {

pub uninterp spec fn alphanumeric(c: char) -> bool;

/// Relies on `char::is_alphanumeric`: whether `c` is alphabetic or numeric.
#[verifier::external_body]
fn is_alphanumeric(c: char) -> (r: bool)
    ensures
        r == alphanumeric(c),
{
    c.is_alphanumeric()
}

/// A config file to source at start, and whether a missing file is fine.
pub struct ArgsConfig {
    pub path: String,
    pub suppress_file_not_found: bool,
}

/// What the launcher was asked to do.
pub struct Args {
    pub version: bool,
    pub session: Option<String>,
    pub print_session: bool,
    pub as_focused_client: bool,
    pub quit: bool,
    pub server: bool,
    pub configs: Vec<ArgsConfig>,
    pub files: Vec<String>,
}

/// The launcher's options as values.
pub struct ArgsModel {
    pub session: Option<Seq<char>>,
    pub print_session: bool,
    pub as_focused_client: bool,
    pub quit: bool,
    pub server: bool,
    pub configs: Seq<(Seq<char>, bool)>,
    pub files: Seq<Seq<char>>,
}

pub enum ArgsError {
    InvalidSessionName(String),
    ExpectedSession(String),
    ExpectedConfigPath(String),
    InvalidOption(String),
}

/// How the launcher goes on: run with the options, print help or the version and quit, or
/// report a bad command line.
pub enum ArgsOutcome {
    Run(Args),
    PrintHelp,
    PrintVersion,
    Error(ArgsError),
}

pub enum ArgsOutcomeModel {
    Run(ArgsModel),
    PrintHelp,
    PrintVersion,
    InvalidSessionName(Seq<char>),
    ExpectedSession(Seq<char>),
    ExpectedConfigPath(Seq<char>),
    InvalidOption(Seq<char>),
}

pub open spec fn all_alphanumeric(s: Seq<char>) -> bool {
    forall|i: int| 0 <= i < s.len() ==> alphanumeric(#[trigger] s[i])
}

pub open spec fn empty_model() -> ArgsModel {
    ArgsModel {
        session: None,
        print_session: false,
        as_focused_client: false,
        quit: false,
        server: false,
        configs: Seq::empty(),
        files: Seq::empty(),
    }
}

/// Reading the command line `args` (without the program name) from `i` on, with `m` read so
/// far. After `--` every argument is a file.
pub open spec fn parse_args_from(args: Seq<Seq<char>>, i: int, m: ArgsModel) -> ArgsOutcomeModel
    decreases args.len() - i,
{
    if i < 0 || i >= args.len() {
        ArgsOutcomeModel::Run(m)
    } else {
        let a = args[i];
        if a == "-h"@ || a == "--help"@ {
            ArgsOutcomeModel::PrintHelp
        } else if a == "-v"@ || a == "--version"@ {
            ArgsOutcomeModel::PrintVersion
        } else if a == "-s"@ || a == "--session"@ {
            if i + 1 < args.len() {
                if all_alphanumeric(args[i + 1]) {
                    parse_args_from(args, i + 2, ArgsModel { session: Some(args[i + 1]), ..m })
                } else {
                    ArgsOutcomeModel::InvalidSessionName(args[i + 1])
                }
            } else {
                ArgsOutcomeModel::ExpectedSession(a)
            }
        } else if a == "--print-session"@ {
            parse_args_from(args, i + 1, ArgsModel { print_session: true, ..m })
        } else if a == "--as-focused-client"@ {
            parse_args_from(args, i + 1, ArgsModel { as_focused_client: true, ..m })
        } else if a == "--quit"@ {
            parse_args_from(args, i + 1, ArgsModel { quit: true, ..m })
        } else if a == "--server"@ {
            parse_args_from(args, i + 1, ArgsModel { server: true, ..m })
        } else if a == "-c"@ || a == "-c!"@ || a == "--config"@ || a == "--config!"@ {
            if i + 1 < args.len() {
                let suppress = a == "-c!"@ || a == "--config!"@;
                parse_args_from(args, i + 2, ArgsModel { configs: m.configs.push((args[i + 1], suppress)), ..m })
            } else {
                ArgsOutcomeModel::ExpectedConfigPath(a)
            }
        } else if a == "--"@ {
            ArgsOutcomeModel::Run(ArgsModel { files: m.files + args.subrange(i + 1, args.len() as int), ..m })
        } else if a.len() > 0 && a[0] == '-' {
            ArgsOutcomeModel::InvalidOption(a)
        } else {
            parse_args_from(args, i + 1, ArgsModel { files: m.files.push(a), ..m })
        }
    }
}

impl Args {
    pub open spec fn model(&self) -> ArgsModel {
        ArgsModel {
            session: match self.session {
                Some(s) => Some(s@),
                None => None,
            },
            print_session: self.print_session,
            as_focused_client: self.as_focused_client,
            quit: self.quit,
            server: self.server,
            configs: self.configs@.map_values(|c: ArgsConfig| (c.path@, c.suppress_file_not_found)),
            files: self.files@.map_values(|f: String| f@),
        }
    }
}

pub open spec fn outcome_model(o: ArgsOutcome) -> ArgsOutcomeModel {
    match o {
        ArgsOutcome::Run(a) => ArgsOutcomeModel::Run(a.model()),
        ArgsOutcome::PrintHelp => ArgsOutcomeModel::PrintHelp,
        ArgsOutcome::PrintVersion => ArgsOutcomeModel::PrintVersion,
        ArgsOutcome::Error(ArgsError::InvalidSessionName(s)) => ArgsOutcomeModel::InvalidSessionName(s@),
        ArgsOutcome::Error(ArgsError::ExpectedSession(s)) => ArgsOutcomeModel::ExpectedSession(s@),
        ArgsOutcome::Error(ArgsError::ExpectedConfigPath(s)) => ArgsOutcomeModel::ExpectedConfigPath(s@),
        ArgsOutcome::Error(ArgsError::InvalidOption(s)) => ArgsOutcomeModel::InvalidOption(s@),
    }
}

pub open spec fn views(args: Seq<String>) -> Seq<Seq<char>> {
    args.map_values(|a: String| a@)
}

fn all_alphanumeric_exec(s: &str) -> (r: bool)
    ensures
        r == all_alphanumeric(s@),
{
    let n = s.unicode_len();
    let mut i: usize = 0;
    while i < n
        invariant
            n == s@.len(),
            i <= n,
            forall|k: int| 0 <= k < i ==> alphanumeric(#[trigger] s@[k]),
        decreases n - i,
    {
        if !is_alphanumeric(s.get_char(i)) {
            return false;
        }
        i = i + 1;
    }
    true
}

impl Args {
    /// Reads the launcher's command line, `args` without the program name.
    pub fn parse(args: &Vec<String>) -> (r: ArgsOutcome)
        ensures
            outcome_model(r) == parse_args_from(views(args@), 0, empty_model()),
    {
        let mut parsed = Args {
            version: false,
            session: None,
            print_session: false,
            as_focused_client: false,
            quit: false,
            server: false,
            configs: Vec::new(),
            files: Vec::new(),
        };
        let ghost all = views(args@);
        proof {
            assert(parsed.model().configs =~= Seq::<(Seq<char>, bool)>::empty());
            assert(parsed.model().files =~= Seq::<Seq<char>>::empty());
        }
        let mut i: usize = 0;
        while i < args.len()
            invariant
                all == views(args@),
                i <= args@.len(),
                parse_args_from(all, 0, empty_model()) == parse_args_from(all, i as int, parsed.model()),
            decreases args@.len() - i,
        {
            let a = args[i].as_str();
            proof {
                assert(all[i as int] == a@);
            }
            if str_eq(a, "-h") || str_eq(a, "--help") {
                return ArgsOutcome::PrintHelp;
            } else if str_eq(a, "-v") || str_eq(a, "--version") {
                return ArgsOutcome::PrintVersion;
            } else if str_eq(a, "-s") || str_eq(a, "--session") {
                if i + 1 < args.len() {
                    let name = args[i + 1].as_str();
                    proof {
                        assert(all[i + 1] == name@);
                    }
                    if !all_alphanumeric_exec(name) {
                        return ArgsOutcome::Error(ArgsError::InvalidSessionName(String::from_str(name)));
                    }
                    parsed.session = Some(String::from_str(name));
                    i = i + 2;
                } else {
                    return ArgsOutcome::Error(ArgsError::ExpectedSession(String::from_str(a)));
                }
            } else if str_eq(a, "--print-session") {
                parsed.print_session = true;
                i = i + 1;
            } else if str_eq(a, "--as-focused-client") {
                parsed.as_focused_client = true;
                i = i + 1;
            } else if str_eq(a, "--quit") {
                parsed.quit = true;
                i = i + 1;
            } else if str_eq(a, "--server") {
                parsed.server = true;
                i = i + 1;
            } else if str_eq(a, "-c") || str_eq(a, "-c!") || str_eq(a, "--config") || str_eq(a, "--config!") {
                if i + 1 < args.len() {
                    let suppress = str_eq(a, "-c!") || str_eq(a, "--config!");
                    let path = args[i + 1].as_str();
                    proof {
                        assert(all[i + 1] == path@);
                    }
                    let ghost before = parsed.model();
                    parsed.configs.push(ArgsConfig { path: String::from_str(path), suppress_file_not_found: suppress });
                    proof {
                        assert(parsed.model().configs =~= before.configs.push((path@, suppress)));
                    }
                    i = i + 2;
                } else {
                    return ArgsOutcome::Error(ArgsError::ExpectedConfigPath(String::from_str(a)));
                }
            } else if str_eq(a, "--") {
                let ghost before = parsed.model();
                let mut j = i + 1;
                while j < args.len()
                    invariant
                        all == views(args@),
                        i < j <= args@.len(),
                        parsed.model().files == before.files + all.subrange(i + 1, j as int),
                        parsed.model().configs == before.configs,
                        parsed.print_session == before.print_session,
                        parsed.as_focused_client == before.as_focused_client,
                        parsed.quit == before.quit,
                        parsed.server == before.server,
                        before.session == parsed.model().session,
                    decreases args@.len() - j,
                {
                    let ghost prev = parsed.model().files;
                    parsed.files.push(String::from_str(args[j].as_str()));
                    proof {
                        assert(parsed.model().files =~= prev.push(all[j as int]));
                        assert(before.files + all.subrange(i + 1, j + 1) =~= before.files + all.subrange(i + 1, j as int) + seq![all[j as int]]);
                    }
                    j = j + 1;
                }
                proof {
                    assert(parsed.model() == ArgsModel { files: before.files + all.subrange(i + 1, all.len() as int), ..before });
                }
                return ArgsOutcome::Run(parsed);
            } else if !a.is_empty() && a.get_char(0) == '-' {
                return ArgsOutcome::Error(ArgsError::InvalidOption(String::from_str(a)));
            } else {
                let ghost before = parsed.model();
                parsed.files.push(String::from_str(a));
                proof {
                    assert(parsed.model().files =~= before.files.push(a@));
                }
                i = i + 1;
            }
        }
        ArgsOutcome::Run(parsed)
    }
}

} // verus!
