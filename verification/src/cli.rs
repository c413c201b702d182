//! The command-line grammar: subcommands, their flags and defaults,
//! and a parser from an argument list to a command value.

use vstd::prelude::*;

use crate::i18n::strs_of;
use crate::strutil::str_eq;
use crate::types::opt_sv;

verus! {

/// The subcommands the tool accepts, with their arguments.
#[derive(Clone, Debug)]
pub enum Commands {
    Init { config: String },
    Sync { config: Option<String>, mode: String, files: Vec<String> },
    Status { config: Option<String> },
    Upload { config: Option<String>, local: String, remote: String },
    Download { config: Option<String>, remote: String, local: String },
    ConfigTest { config: Option<String> },
    Version,
    CheckUpdate,
}

/// Mathematical view of a `Commands` value.
pub ghost enum CommandsV {
    Init { config: Seq<char> },
    Sync { config: Option<Seq<char>>, mode: Seq<char>, files: Seq<Seq<char>> },
    Status { config: Option<Seq<char>> },
    Upload { config: Option<Seq<char>>, local: Seq<char>, remote: Seq<char> },
    Download { config: Option<Seq<char>>, remote: Seq<char>, local: Seq<char> },
    ConfigTest { config: Option<Seq<char>> },
    Version,
    CheckUpdate,
}

impl View for Commands {
    type V = CommandsV;

    open spec fn view(&self) -> CommandsV {
        match self {
            Commands::Init { config } => CommandsV::Init { config: config@ },
            Commands::Sync { config, mode, files } => CommandsV::Sync {
                config: opt_sv(*config),
                mode: mode@,
                files: strs_of(files@),
            },
            Commands::Status { config } => CommandsV::Status { config: opt_sv(*config) },
            Commands::Upload { config, local, remote } => CommandsV::Upload {
                config: opt_sv(*config),
                local: local@,
                remote: remote@,
            },
            Commands::Download { config, remote, local } => CommandsV::Download {
                config: opt_sv(*config),
                remote: remote@,
                local: local@,
            },
            Commands::ConfigTest { config } => CommandsV::ConfigTest { config: opt_sv(*config) },
            Commands::Version => CommandsV::Version,
            Commands::CheckUpdate => CommandsV::CheckUpdate,
        }
    }
}

/// A parsed command line.
#[derive(Clone, Debug)]
pub struct Cli {
    pub command: Commands,
}

/// Mathematical view of a `Cli` value.
pub ghost struct CliV {
    pub command: CommandsV,
}

impl View for Cli {
    type V = CliV;

    open spec fn view(&self) -> CliV {
        CliV { command: self.command@ }
    }
}

/// Is this token the long or short spelling of a flag?
pub open spec fn is_flag(tok: Seq<char>, long: Seq<char>, short: Seq<char>) -> bool {
    tok == long || tok == short
}

/// What parsing the arguments of `init` yields; `config` carries the
/// default or the last value seen.
pub open spec fn spec_parse_init(rest: Seq<Seq<char>>, config: Seq<char>) -> Option<CliV>
    decreases rest.len(),
{
    if rest.len() == 0 {
        Some(CliV { command: CommandsV::Init { config } })
    } else if rest.len() >= 2 && is_flag(rest[0], "--config"@, "-c"@) {
        spec_parse_init(rest.skip(2), rest[1])
    } else {
        None
    }
}

/// What parsing the arguments of `status` or `config-test` yields:
/// the optional configuration path.
pub open spec fn spec_parse_config_only(rest: Seq<Seq<char>>, config: Option<Seq<char>>)
    -> Option<Option<Seq<char>>>
    decreases rest.len(),
{
    if rest.len() == 0 {
        Some(config)
    } else if rest.len() >= 2 && is_flag(rest[0], "--config"@, "-c"@) {
        spec_parse_config_only(rest.skip(2), Some(rest[1]))
    } else {
        None
    }
}

/// What parsing the arguments of `sync` yields: flags first, then any
/// token that is not a flag starts the trailing list of files.
pub open spec fn spec_parse_sync(
    rest: Seq<Seq<char>>,
    config: Option<Seq<char>>,
    mode: Seq<char>,
) -> Option<CliV>
    decreases rest.len(),
{
    if rest.len() == 0 {
        Some(CliV { command: CommandsV::Sync { config, mode, files: Seq::empty() } })
    } else if rest.len() >= 2 && is_flag(rest[0], "--config"@, "-c"@) {
        spec_parse_sync(rest.skip(2), Some(rest[1]), mode)
    } else if rest.len() >= 2 && is_flag(rest[0], "--mode"@, "-m"@) {
        spec_parse_sync(rest.skip(2), config, rest[1])
    } else if rest[0].len() >= 1 && rest[0][0] == '-' {
        None
    } else {
        Some(CliV { command: CommandsV::Sync { config, mode, files: rest } })
    }
}

/// What parsing the arguments of `upload` yields; both paths must be
/// given.
pub open spec fn spec_parse_upload(
    rest: Seq<Seq<char>>,
    config: Option<Seq<char>>,
    local: Option<Seq<char>>,
    remote: Option<Seq<char>>,
) -> Option<CliV>
    decreases rest.len(),
{
    if rest.len() == 0 {
        match (local, remote) {
            (Some(l), Some(r)) => Some(
                CliV { command: CommandsV::Upload { config, local: l, remote: r } },
            ),
            _ => None,
        }
    } else if rest.len() >= 2 && is_flag(rest[0], "--config"@, "-c"@) {
        spec_parse_upload(rest.skip(2), Some(rest[1]), local, remote)
    } else if rest.len() >= 2 && is_flag(rest[0], "--local"@, "-l"@) {
        spec_parse_upload(rest.skip(2), config, Some(rest[1]), remote)
    } else if rest.len() >= 2 && is_flag(rest[0], "--remote"@, "-r"@) {
        spec_parse_upload(rest.skip(2), config, local, Some(rest[1]))
    } else {
        None
    }
}

/// What parsing the arguments of `download` yields; both paths must be
/// given.
pub open spec fn spec_parse_download(
    rest: Seq<Seq<char>>,
    config: Option<Seq<char>>,
    remote: Option<Seq<char>>,
    local: Option<Seq<char>>,
) -> Option<CliV>
    decreases rest.len(),
{
    if rest.len() == 0 {
        match (remote, local) {
            (Some(r), Some(l)) => Some(
                CliV { command: CommandsV::Download { config, remote: r, local: l } },
            ),
            _ => None,
        }
    } else if rest.len() >= 2 && is_flag(rest[0], "--config"@, "-c"@) {
        spec_parse_download(rest.skip(2), Some(rest[1]), remote, local)
    } else if rest.len() >= 2 && is_flag(rest[0], "--remote"@, "-r"@) {
        spec_parse_download(rest.skip(2), config, Some(rest[1]), local)
    } else if rest.len() >= 2 && is_flag(rest[0], "--local"@, "-l"@) {
        spec_parse_download(rest.skip(2), config, remote, Some(rest[1]))
    } else {
        None
    }
}

/// What parsing a whole argument list yields. The first token is the
/// program name; the second chooses the subcommand.
pub open spec fn spec_parse_cli(args: Seq<Seq<char>>) -> Option<CliV> {
    if args.len() < 2 {
        None
    } else {
        let cmd = args[1];
        let rest = args.skip(2);
        if cmd == "init"@ {
            spec_parse_init(rest, "astra.json"@)
        } else if cmd == "sync"@ {
            spec_parse_sync(rest, None, "upload"@)
        } else if cmd == "status"@ {
            match spec_parse_config_only(rest, None) {
                Some(c) => Some(CliV { command: CommandsV::Status { config: c } }),
                None => None,
            }
        } else if cmd == "upload"@ {
            spec_parse_upload(rest, None, None, None)
        } else if cmd == "download"@ {
            spec_parse_download(rest, None, None, None)
        } else if cmd == "config-test"@ {
            match spec_parse_config_only(rest, None) {
                Some(c) => Some(CliV { command: CommandsV::ConfigTest { config: c } }),
                None => None,
            }
        } else if cmd == "version"@ {
            if rest.len() == 0 {
                Some(CliV { command: CommandsV::Version })
            } else {
                None
            }
        } else if cmd == "check-update"@ {
            if rest.len() == 0 {
                Some(CliV { command: CommandsV::CheckUpdate })
            } else {
                None
            }
        } else {
            None
        }
    }
}

/// Does this token name a flag, long or short?
fn flag_matches(tok: &String, long: &str, short: &str) -> (r: bool)
    ensures
        r == is_flag(tok@, long@, short@),
{
    str_eq(tok.as_str(), long) || str_eq(tok.as_str(), short)
}

fn parse_init(args: &Vec<String>, i: usize, config: String) -> (r: Option<Cli>)
    requires
        i <= args@.len(),
    ensures
        match r {
            Some(c) => spec_parse_init(strs_of(args@).skip(i as int), config@) == Some(c@),
            None => spec_parse_init(strs_of(args@).skip(i as int), config@) is None,
        },
    decreases args@.len() - i,
{
    let ghost rest = strs_of(args@).skip(i as int);
    let n = args.len();
    if i == n {
        Some(Cli { command: Commands::Init { config } })
    } else if n - i >= 2 && flag_matches(&args[i], "--config", "-c") {
        proof {
            assert(rest[0] == strs_of(args@)[i as int]);
            assert(rest[1] == strs_of(args@)[i as int + 1]);
            assert(rest.skip(2) =~= strs_of(args@).skip(i as int + 2));
        }
        parse_init(args, i + 2, args[i + 1].clone())
    } else {
        proof {
            assert(rest[0] == strs_of(args@)[i as int]);
        }
        None
    }
}

fn parse_config_only(args: &Vec<String>, i: usize, config: Option<String>) -> (r: Option<
    Option<String>>)
    requires
        i <= args@.len(),
    ensures
        match r {
            Some(c) => spec_parse_config_only(strs_of(args@).skip(i as int), opt_sv(config))
                == Some(opt_sv(c)),
            None => spec_parse_config_only(strs_of(args@).skip(i as int), opt_sv(config))
                is None,
        },
    decreases args@.len() - i,
{
    let ghost rest = strs_of(args@).skip(i as int);
    let n = args.len();
    if i == n {
        Some(config)
    } else if n - i >= 2 && flag_matches(&args[i], "--config", "-c") {
        proof {
            assert(rest[0] == strs_of(args@)[i as int]);
            assert(rest[1] == strs_of(args@)[i as int + 1]);
            assert(rest.skip(2) =~= strs_of(args@).skip(i as int + 2));
        }
        parse_config_only(args, i + 2, Some(args[i + 1].clone()))
    } else {
        proof {
            assert(rest[0] == strs_of(args@)[i as int]);
        }
        None
    }
}

fn parse_sync(args: &Vec<String>, i: usize, config: Option<String>, mode: String) -> (r:
    Option<Cli>)
    requires
        i <= args@.len(),
    ensures
        match r {
            Some(c) => spec_parse_sync(strs_of(args@).skip(i as int), opt_sv(config), mode@)
                == Some(c@),
            None => spec_parse_sync(strs_of(args@).skip(i as int), opt_sv(config), mode@)
                is None,
        },
    decreases args@.len() - i,
{
    let ghost rest = strs_of(args@).skip(i as int);
    let n = args.len();
    if i == n {
        let r = Cli { command: Commands::Sync { config, mode, files: Vec::new() } };
        proof {
            assert(strs_of(Seq::<String>::empty()) =~= Seq::<Seq<char>>::empty());
        }
        Some(r)
    } else if n - i >= 2 && flag_matches(&args[i], "--config", "-c") {
        proof {
            assert(rest[0] == strs_of(args@)[i as int]);
            assert(rest[1] == strs_of(args@)[i as int + 1]);
            assert(rest.skip(2) =~= strs_of(args@).skip(i as int + 2));
        }
        parse_sync(args, i + 2, Some(args[i + 1].clone()), mode)
    } else if n - i >= 2 && flag_matches(&args[i], "--mode", "-m") {
        proof {
            assert(rest[0] == strs_of(args@)[i as int]);
            assert(rest[1] == strs_of(args@)[i as int + 1]);
            assert(rest.skip(2) =~= strs_of(args@).skip(i as int + 2));
        }
        parse_sync(args, i + 2, config, args[i + 1].clone())
    } else {
        proof {
            assert(rest[0] == strs_of(args@)[i as int]);
        }
        let first = &args[i];
        let starts_dash = first.as_str().unicode_len() >= 1 && first.as_str().get_char(0)
            == '-';
        if starts_dash {
            None
        } else {
            let mut files: Vec<String> = Vec::new();
            let mut j: usize = i;
            proof {
                assert(strs_of(files@) =~= strs_of(args@).subrange(i as int, i as int));
            }
            while j < n
                invariant
                    i <= j <= n,
                    n == args@.len(),
                    strs_of(files@) == strs_of(args@).subrange(i as int, j as int),
                decreases n - j,
            {
                let ghost prev = files@;
                files.push(args[j].clone());
                j += 1;
                proof {
                    assert(files@.last()@ == args@[j as int - 1]@);
                    assert(strs_of(files@) =~= strs_of(prev).push(args@[j as int - 1]@));
                    assert(strs_of(args@)[j as int - 1] == args@[j as int - 1]@);
                    assert(strs_of(files@) =~= strs_of(args@).subrange(i as int, j as int));
                }
            }
            proof {
                assert(strs_of(args@).subrange(i as int, n as int) =~= rest);
            }
            let r = Cli { command: Commands::Sync { config, mode, files } };
            Some(r)
        }
    }
}

fn parse_upload(args: &Vec<String>, i: usize, config: Option<String>, local: Option<String>,
    remote: Option<String>) -> (r: Option<Cli>)
    requires
        i <= args@.len(),
    ensures
        match r {
            Some(c) => spec_parse_upload(strs_of(args@).skip(i as int), opt_sv(config),
                opt_sv(local), opt_sv(remote)) == Some(c@),
            None => spec_parse_upload(strs_of(args@).skip(i as int), opt_sv(config), opt_sv(
                local), opt_sv(remote)) is None,
        },
    decreases args@.len() - i,
{
    let ghost rest = strs_of(args@).skip(i as int);
    let n = args.len();
    if i == n {
        match (local, remote) {
            (Some(l), Some(r)) => Some(
                Cli { command: Commands::Upload { config, local: l, remote: r } },
            ),
            _ => None,
        }
    } else if n - i >= 2 && flag_matches(&args[i], "--config", "-c") {
        proof {
            assert(rest[0] == strs_of(args@)[i as int]);
            assert(rest[1] == strs_of(args@)[i as int + 1]);
            assert(rest.skip(2) =~= strs_of(args@).skip(i as int + 2));
        }
        parse_upload(args, i + 2, Some(args[i + 1].clone()), local, remote)
    } else if n - i >= 2 && flag_matches(&args[i], "--local", "-l") {
        proof {
            assert(rest[0] == strs_of(args@)[i as int]);
            assert(rest[1] == strs_of(args@)[i as int + 1]);
            assert(rest.skip(2) =~= strs_of(args@).skip(i as int + 2));
        }
        parse_upload(args, i + 2, config, Some(args[i + 1].clone()), remote)
    } else if n - i >= 2 && flag_matches(&args[i], "--remote", "-r") {
        proof {
            assert(rest[0] == strs_of(args@)[i as int]);
            assert(rest[1] == strs_of(args@)[i as int + 1]);
            assert(rest.skip(2) =~= strs_of(args@).skip(i as int + 2));
        }
        parse_upload(args, i + 2, config, local, Some(args[i + 1].clone()))
    } else {
        proof {
            assert(rest[0] == strs_of(args@)[i as int]);
        }
        None
    }
}

fn parse_download(args: &Vec<String>, i: usize, config: Option<String>,
    remote: Option<String>, local: Option<String>) -> (r: Option<Cli>)
    requires
        i <= args@.len(),
    ensures
        match r {
            Some(c) => spec_parse_download(strs_of(args@).skip(i as int), opt_sv(config),
                opt_sv(remote), opt_sv(local)) == Some(c@),
            None => spec_parse_download(strs_of(args@).skip(i as int), opt_sv(config),
                opt_sv(remote), opt_sv(local)) is None,
        },
    decreases args@.len() - i,
{
    let ghost rest = strs_of(args@).skip(i as int);
    let n = args.len();
    if i == n {
        match (remote, local) {
            (Some(r), Some(l)) => Some(
                Cli { command: Commands::Download { config, remote: r, local: l } },
            ),
            _ => None,
        }
    } else if n - i >= 2 && flag_matches(&args[i], "--config", "-c") {
        proof {
            assert(rest[0] == strs_of(args@)[i as int]);
            assert(rest[1] == strs_of(args@)[i as int + 1]);
            assert(rest.skip(2) =~= strs_of(args@).skip(i as int + 2));
        }
        parse_download(args, i + 2, Some(args[i + 1].clone()), remote, local)
    } else if n - i >= 2 && flag_matches(&args[i], "--remote", "-r") {
        proof {
            assert(rest[0] == strs_of(args@)[i as int]);
            assert(rest[1] == strs_of(args@)[i as int + 1]);
            assert(rest.skip(2) =~= strs_of(args@).skip(i as int + 2));
        }
        parse_download(args, i + 2, config, Some(args[i + 1].clone()), local)
    } else if n - i >= 2 && flag_matches(&args[i], "--local", "-l") {
        proof {
            assert(rest[0] == strs_of(args@)[i as int]);
            assert(rest[1] == strs_of(args@)[i as int + 1]);
            assert(rest.skip(2) =~= strs_of(args@).skip(i as int + 2));
        }
        parse_download(args, i + 2, config, remote, Some(args[i + 1].clone()))
    } else {
        proof {
            assert(rest[0] == strs_of(args@)[i as int]);
        }
        None
    }
}

impl Cli {
    /// Parse an argument list, the program name first. The result is
    /// the command the arguments describe, or nothing when they do
    /// not fit the grammar.
    pub fn try_parse_from(args: &Vec<String>) -> (r: Option<Cli>)
        ensures
            match r {
                Some(c) => spec_parse_cli(strs_of(args@)) == Some(c@),
                None => spec_parse_cli(strs_of(args@)) is None,
            },
    {
        let n = args.len();
        if n < 2 {
            return None;
        }
        let cmd = &args[1];
        proof {
            assert(cmd@ == strs_of(args@)[1]);
        }
        if str_eq(cmd.as_str(), "init") {
            parse_init(args, 2, String::from_str("astra.json"))
        } else if str_eq(cmd.as_str(), "sync") {
            parse_sync(args, 2, None, String::from_str("upload"))
        } else if str_eq(cmd.as_str(), "status") {
            match parse_config_only(args, 2, None) {
                Some(config) => Some(Cli { command: Commands::Status { config } }),
                None => None,
            }
        } else if str_eq(cmd.as_str(), "upload") {
            parse_upload(args, 2, None, None, None)
        } else if str_eq(cmd.as_str(), "download") {
            parse_download(args, 2, None, None, None)
        } else if str_eq(cmd.as_str(), "config-test") {
            match parse_config_only(args, 2, None) {
                Some(config) => Some(Cli { command: Commands::ConfigTest { config } }),
                None => None,
            }
        } else if str_eq(cmd.as_str(), "version") {
            if n == 2 {
                Some(Cli { command: Commands::Version })
            } else {
                None
            }
        } else if str_eq(cmd.as_str(), "check-update") {
            if n == 2 {
                Some(Cli { command: Commands::CheckUpdate })
            } else {
                None
            }
        } else {
            None
        }
    }
}

} // verus!
