//! The command lines of the daemons.

use vstd::prelude::*;

use crate::text::{chars_of, stands_at, text_between};

verus! {

/// What the terminal daemon is asked to do.
#[derive(Debug, PartialEq, Eq)]
pub enum Command {
    Run { config_path: String },
    Version,
    Help,
}

/// What the terminal daemon says of itself.
pub const HELP: &'static str = "\
wand-render — Wand 常驻 Render 守护进程（PTY / 输出 journal / VT 屏幕模型）

用法：
  wand-render -c <configPath>     启动（socket 路径由 configPath 派生）
  wand-render --config <path>     同上
  wand-render --version           打印版本
  wand-render --help              显示本帮助
";

/// What an argument says.
pub enum Argument {
    /// The next argument is the path of the configuration.
    ConfigNext,
    /// The argument holds the path of the configuration.
    Config(Seq<char>),
    Version,
    Help,
    Unknown,
}

/// What an argument says.
pub open spec fn argument(text: Seq<char>) -> Argument {
    if text == "-c"@ || text == "--config"@ {
        Argument::ConfigNext
    } else if text == "--version"@ || text == "-V"@ || text == "-v"@ {
        Argument::Version
    } else if text == "--help"@ || text == "-h"@ {
        Argument::Help
    } else if text.len() >= 9 && text.take(9) == "--config="@ {
        Argument::Config(text.skip(9))
    } else {
        Argument::Unknown
    }
}

/// What a command line means, or why it means nothing.
pub enum Meaning {
    Run(Seq<char>),
    Version,
    Help,
    Wrong(Seq<char>),
}

/// What the arguments from a position on mean, when `config` is the path that the ones before it
/// gave, if they gave one. The first that asks for the version or for help, or is wrong, decides;
/// of several paths the last one counts.
pub open spec fn meaning_from(
    args: Seq<Seq<char>>,
    at: int,
    config: Option<Seq<char>>,
) -> Meaning
    decreases args.len() - at,
{
    if at >= args.len() {
        match config {
            Some(path) => Meaning::Run(path),
            None => Meaning::Wrong("missing -c <configPath>"@),
        }
    } else {
        match argument(args[at]) {
            Argument::ConfigNext => if at + 1 < args.len() {
                meaning_from(args, at + 2, Some(args[at + 1]))
            } else {
                Meaning::Wrong(args[at] + " requires a config path"@)
            },
            Argument::Config(path) => meaning_from(args, at + 1, Some(path)),
            Argument::Version => Meaning::Version,
            Argument::Help => Meaning::Help,
            Argument::Unknown => Meaning::Wrong("unrecognized argument "@ + args[at]),
        }
    }
}

/// Whether a result is what a command line means.
pub open spec fn is_meant(result: Result<Command, String>, meaning: Meaning) -> bool {
    match meaning {
        Meaning::Run(path) => result matches Ok(Command::Run { config_path }) && config_path@ == path,
        Meaning::Version => result matches Ok(Command::Version),
        Meaning::Help => result matches Ok(Command::Help),
        Meaning::Wrong(reason) => result matches Err(text) && text@ == reason,
    }
}

/// What arguments are.
pub open spec fn arguments(args: Seq<String>) -> Seq<Seq<char>> {
    Seq::new(args.len(), |i: int| args[i]@)
}

/// The path behind `--config=`, if the argument starts with that.
fn inline_config(text: &String) -> (path: Option<String>)
    ensures
        match path {
            Some(path) => text@.len() >= 9 && text@.take(9) == "--config="@ && path@ == text@.skip(9),
            None => !(text@.len() >= 9 && text@.take(9) == "--config="@),
        },
{
    let chars: Vec<char> = chars_of(text.as_str());
    let prefix: Vec<char> = chars_of("--config=");
    proof {
        reveal_strlit("--config=");
        assert(chars@.len() >= 9 ==> chars@.subrange(0, 9) == chars@.take(9));
    }
    if stands_at(chars.as_slice(), prefix.as_slice(), 0) {
        assert(chars@.subrange(9, chars@.len() as int) == text@.skip(9));
        Some(text_between(chars.as_slice(), 9, chars.len()))
    } else {
        None
    }
}

/// Reads the command line of the terminal daemon, without the name of the program.
pub fn parse(args: &Vec<String>) -> (result: Result<Command, String>)
    ensures
        is_meant(result, meaning_from(arguments(args@), 0, None)),
{
    let ghost all = arguments(args@);
    let total: usize = args.len();
    let mut config: Option<String> = None;
    let mut at: usize = 0;
    while at < total
        invariant
            total == args@.len(),
            at <= total,
            all == arguments(args@),
            meaning_from(all, 0, None) == meaning_from(
                all,
                at as int,
                match config {
                    Some(path) => Some(path@),
                    None => None,
                },
            ),
        decreases total - at,
    {
        let text: &String = &args[at];
        assert(all[at as int] == text@);
        if *text == "-c".to_owned() || *text == "--config".to_owned() {
            if at + 1 >= total {
                let mut reason = text.clone();
                reason.append(" requires a config path");
                return Err(reason);
            }
            config = Some(args[at + 1].clone());
            at = at + 2;
        } else if *text == "--version".to_owned() || *text == "-V".to_owned() || *text
            == "-v".to_owned() {
            return Ok(Command::Version);
        } else if *text == "--help".to_owned() || *text == "-h".to_owned() {
            return Ok(Command::Help);
        } else {
            match inline_config(text) {
                Some(path) => {
                    config = Some(path);
                    at = at + 1;
                },
                None => {
                    let mut reason = "unrecognized argument ".to_owned();
                    reason.append(text.as_str());
                    return Err(reason);
                },
            }
        }
    }
    match config {
        Some(config_path) => Ok(Command::Run { config_path }),
        None => Err("missing -c <configPath>".to_owned()),
    }
}

/// Reads the command line of the daemon of the structured protocol, without the name of the
/// program: a path, or nothing where the version is asked for.
pub fn parse_structured(args: &Vec<String>) -> (result: Result<Option<String>, String>)
    ensures
        ({
            let all = arguments(args@);
            if all.len() == 1 && all[0] == "--version"@ {
                result matches Ok(None)
            } else if all.len() == 2 && all[0] == "--config"@ {
                result matches Ok(Some(path)) && path@ == all[1]
            } else {
                result matches Err(text) && text@
                    == "usage: wand-structured-render --config <config-path> | --version"@
            }
        }),
{
    if args.len() == 1 && args[0] == "--version".to_owned() {
        Ok(None)
    } else if args.len() == 2 && args[0] == "--config".to_owned() {
        Ok(Some(args[1].clone()))
    } else {
        Err("usage: wand-structured-render --config <config-path> | --version".to_owned())
    }
}

/// The path of the configuration is what follows `-c` or `--config`, or what `--config=` holds; of
/// several, the last one. Without one the daemon does not run.
pub proof fn law_last_path_given_counts(
    args: Seq<Seq<char>>,
    path: Seq<char>,
    before: Option<Seq<char>>,
)
    ensures
        meaning_from(args.push("-c"@).push(path), args.len() as int, before) == Meaning::Run(path),
        meaning_from(args.push("--config"@).push(path), args.len() as int, before) == Meaning::Run(
            path,
        ),
        meaning_from(args.push("--config="@ + path), args.len() as int, before) == Meaning::Run(
            path,
        ),
        meaning_from(args, args.len() as int, Some(path)) == Meaning::Run(path),
        meaning_from(args, args.len() as int, None) == Meaning::Wrong("missing -c <configPath>"@),
        meaning_from(args.push("-c"@), args.len() as int, before) == Meaning::Wrong(
            "-c"@ + " requires a config path"@,
        ),
        meaning_from(args.push("--config"@), args.len() as int, before) == Meaning::Wrong(
            "--config"@ + " requires a config path"@,
        ),
{
    reveal_strlit("-c");
    reveal_strlit("--config");
    reveal_strlit("--config=");
    reveal_strlit("--version");
    reveal_strlit("-V");
    reveal_strlit("-v");
    reveal_strlit("--help");
    reveal_strlit("-h");
    reveal_with_fuel(meaning_from, 3);
    let inline = "--config="@ + path;
    assert(inline.take(9) == "--config="@);
    assert(inline.skip(9) == path);
    assert(inline[8] == '=');
    assert(inline[2] == 'c');
    assert("--version"@[2] == 'v');
    assert("--help"@[2] == 'h');
}

/// A request for the version or for help is answered, and an argument that is none of these is
/// refused, whatever comes behind it. A path is taken, and what comes behind it is read on.
pub proof fn law_first_other_argument_decides(
    args: Seq<Seq<char>>,
    at: int,
    before: Option<Seq<char>>,
    path: Seq<char>,
)
    requires
        0 <= at < args.len(),
    ensures
        args[at] == "--version"@ || args[at] == "-V"@ || args[at] == "-v"@ ==> meaning_from(
            args,
            at,
            before,
        ) is Version,
        args[at] == "--help"@ || args[at] == "-h"@ ==> meaning_from(args, at, before) is Help,
        args[at] != "--version"@ && args[at] != "-V"@ && args[at] != "-v"@ && args[at]
            != "--help"@ && args[at] != "-h"@ && args[at] != "-c"@ && args[at] != "--config"@
            && !(args[at].len() >= 9 && args[at].take(9) == "--config="@) ==> meaning_from(
            args,
            at,
            before,
        ) == Meaning::Wrong("unrecognized argument "@ + args[at]),
        (args[at] == "-c"@ || args[at] == "--config"@) && at + 1 < args.len() ==> meaning_from(
            args,
            at,
            before,
        ) == meaning_from(args, at + 2, Some(args[at + 1])),
        args[at] == "--config="@ + path ==> meaning_from(args, at, before) == meaning_from(
            args,
            at + 1,
            Some(path),
        ),
{
    reveal_strlit("-c");
    reveal_strlit("--config");
    reveal_strlit("--config=");
    reveal_strlit("--version");
    reveal_strlit("-V");
    reveal_strlit("-v");
    reveal_strlit("--help");
    reveal_strlit("-h");
    assert("--version"@[2] == 'v');
    assert("--help"@[2] == 'h');
    assert("--config"@[2] == 'c');
    assert("-V"@[1] == 'V');
    assert("-v"@[1] == 'v');
    assert("-h"@[1] == 'h');
    assert("-c"@[1] == 'c');
    if args[at] == "--config="@ + path {
        assert(args[at].take(9) == "--config="@);
        assert(args[at].skip(9) == path);
        assert(args[at][2] == 'c');
        assert(args[at][8] == '=');
    }
}

/// What the command line means is what is done: the daemon runs with the path that was given, tells
/// its version, helps, or says what is wrong.
pub proof fn law_meaning_is_what_is_done(result: Result<Command, String>, text: Seq<char>)
    ensures
        is_meant(result, Meaning::Run(text)) ==> match result {
            Ok(Command::Run { config_path }) => config_path@ == text,
            _ => false,
        },
        is_meant(result, Meaning::Version) ==> result matches Ok(Command::Version),
        is_meant(result, Meaning::Help) ==> result matches Ok(Command::Help),
        is_meant(result, Meaning::Wrong(text)) ==> match result {
            Err(told) => told@ == text,
            _ => false,
        },
{
}

} // verus!
