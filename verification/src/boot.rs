//! Start-up command-line handling: which command the given arguments
//! select, before any file or store is touched.
//!
//! An argument beginning with one or two dashes names a key; its value
//! comes after an equals sign inside the same argument, trimmed, or as
//! the following argument. Parsing stops at the first argument that does
//! not begin with a dash. An environment-supplied configuration path
//! bypasses argument parsing altogether.

use vstd::prelude::*;
use vstd::string::StrSliceExecFns;

verus! {

/// A store-level bulk operation selected on the command line.
pub enum StoreOp {
    Export(String),
    Import(String),
    Console,
    Nothing,
}

/// What the process is to do, as the command line decides it.
pub enum BootCommand {
    /// Print usage and leave.
    Help,
    /// Print the version and leave.
    Version,
    /// Initialize a fresh server at the path and leave.
    Quickstart(String),
    /// Start with this configuration, first running the operation.
    Run { config_path: String, op: StoreOp },
    /// No configuration and no operation named: print usage and leave.
    ShowHelp,
    /// An operation was named but no configuration to run it against.
    MissingConfig,
    /// A key that no command answers to, given without a value.
    UnknownCommand(String),
    /// A key that no command answers to, given with a value.
    MissingValue(String),
}

/// The specification-level mirror of `StoreOp`.
pub enum OpPlan {
    Export(Seq<char>),
    Import(Seq<char>),
    Console,
    Nothing,
}

/// The specification-level mirror of `BootCommand`.
pub enum BootPlan {
    Help,
    Version,
    Quickstart(Seq<char>),
    Run { config_path: Seq<char>, op: OpPlan },
    ShowHelp,
    MissingConfig,
    UnknownCommand(Seq<char>),
    MissingValue(Seq<char>),
}

/// The plan an operation names.
pub open spec fn op_plan_of(op: StoreOp) -> OpPlan {
    match op {
        StoreOp::Export(p) => OpPlan::Export(p@),
        StoreOp::Import(p) => OpPlan::Import(p@),
        StoreOp::Console => OpPlan::Console,
        StoreOp::Nothing => OpPlan::Nothing,
    }
}

/// The plan a command names.
pub open spec fn plan_of(c: BootCommand) -> BootPlan {
    match c {
        BootCommand::Help => BootPlan::Help,
        BootCommand::Version => BootPlan::Version,
        BootCommand::Quickstart(p) => BootPlan::Quickstart(p@),
        BootCommand::Run { config_path, op } => BootPlan::Run {
            config_path: config_path@,
            op: op_plan_of(op),
        },
        BootCommand::ShowHelp => BootPlan::ShowHelp,
        BootCommand::MissingConfig => BootPlan::MissingConfig,
        BootCommand::UnknownCommand(k) => BootPlan::UnknownCommand(k@),
        BootCommand::MissingValue(k) => BootPlan::MissingValue(k@),
    }
}

/// An argument's key part: the text after two leading dashes, or after
/// one; an argument with no leading dash carries no key.
pub open spec fn strip_dashes(a: Seq<char>) -> Option<Seq<char>> {
    if a.len() >= 2 && a[0] == '-' && a[1] == '-' {
        Some(a.skip(2))
    } else if a.len() >= 1 && a[0] == '-' {
        Some(a.skip(1))
    } else {
        None
    }
}

/// Whether the key text contains an equals sign.
pub open spec fn has_eq(s: Seq<char>) -> bool {
    exists|i: int| 0 <= i < s.len() && s[i] == '='
}

/// Position of the first equals sign.
pub open spec fn first_eq(s: Seq<char>) -> int {
    choose|i: int|
        0 <= i < s.len() && s[i] == '=' && (forall|j: int| 0 <= j < i ==> s[j] != '=')
}

/// What str::trim leaves of a piece of text.
pub uninterp spec fn trimmed(s: Seq<char>) -> Seq<char>;

/// Relies on str::trim: the text without leading and trailing
/// whitespace, a pure function of the text.
#[verifier::external_body]
fn trim_text(s: &str) -> (r: String)
    ensures
        r@ == trimmed(s@),
{
    s.trim().to_owned()
}

/// What the configuration and operation gathered so far come to once the
/// arguments end: a start when a configuration is known, usage when
/// nothing at all was asked, and a complaint when an operation lacks its
/// configuration.
pub open spec fn finish_plan(config: Option<Seq<char>>, op: OpPlan) -> BootPlan {
    match config {
        Some(c) => BootPlan::Run { config_path: c, op },
        None => if op is Nothing {
            BootPlan::ShowHelp
        } else {
            BootPlan::MissingConfig
        },
    }
}

/// What one key with its value does: the printing commands leave at
/// once, a quickstart leaves at once, configuration and operations are
/// gathered and parsing goes on, and an unrecognized key stops with a
/// complaint that names it.
pub open spec fn step_plan(
    key: Seq<char>,
    val: Option<Seq<char>>,
    rest: Seq<Seq<char>>,
    config: Option<Seq<char>>,
    op: OpPlan,
) -> BootPlan
    decreases rest.len(), 1nat,
{
    if key == "help"@ || key == "h"@ {
        BootPlan::Help
    } else if key == "version"@ || key == "V"@ {
        BootPlan::Version
    } else if (key == "config"@ || key == "c"@) && val is Some {
        parse_rec(rest, Some(val->Some_0), op)
    } else if (key == "init"@ || key == "I"@) && val is Some {
        BootPlan::Quickstart(val->Some_0)
    } else if (key == "export"@ || key == "e"@) && val is Some {
        parse_rec(rest, config, OpPlan::Export(val->Some_0))
    } else if (key == "import"@ || key == "i"@) && val is Some {
        parse_rec(rest, config, OpPlan::Import(val->Some_0))
    } else if (key == "console"@ || key == "o"@) && val is None {
        parse_rec(rest, config, OpPlan::Console)
    } else if val is None {
        BootPlan::UnknownCommand(key)
    } else {
        BootPlan::MissingValue(key)
    }
}

/// The command that the remaining arguments select, with the
/// configuration and operation gathered so far. An argument with an
/// equals sign carries its own value, trimmed; otherwise the following
/// argument, when there is one, serves as the value.
pub open spec fn parse_rec(
    args: Seq<Seq<char>>,
    config: Option<Seq<char>>,
    op: OpPlan,
) -> BootPlan
    decreases args.len(), 0nat,
{
    if args.len() == 0 {
        finish_plan(config, op)
    } else {
        match strip_dashes(args[0]) {
            None => finish_plan(config, op),
            Some(arg) => {
                if has_eq(arg) {
                    let key = arg.subrange(0, first_eq(arg));
                    let val = trimmed(arg.subrange(first_eq(arg) + 1, arg.len() as int));
                    step_plan(key, Some(val), args.skip(1), config, op)
                } else {
                    if args.len() >= 2 {
                        step_plan(arg, Some(args[1]), args.skip(2), config, op)
                    } else {
                        step_plan(arg, None, args.skip(1), config, op)
                    }
                }
            },
        }
    }
}

/// The arguments as the specification sees them.
pub open spec fn arg_views(args: Seq<String>) -> Seq<Seq<char>> {
    args.map_values(|s: String| s@)
}

/// The command the process start selects: a configuration path from the
/// environment starts the server outright; otherwise the command-line
/// arguments, program name already removed, decide per `parse_rec`.
pub open spec fn boot_plan(args: Seq<Seq<char>>, env_config: Option<Seq<char>>) -> BootPlan {
    match env_config {
        Some(c) => BootPlan::Run { config_path: c, op: OpPlan::Nothing },
        None => parse_rec(args, None, OpPlan::Nothing),
    }
}

/// The argument's key part; see `strip_dashes`.
fn strip_dashes_exec(a: &String) -> (r: Option<String>)
    ensures
        r is Some <==> strip_dashes(a@) is Some,
        r matches Some(s) ==> strip_dashes(a@) == Some(s@),
{
    let n = a.as_str().unicode_len();
    if n >= 2 && a.as_str().get_char(0) == '-' && a.as_str().get_char(1) == '-' {
        proof {
            assert(a@.skip(2) =~= a@.subrange(2, a@.len() as int));
        }
        Some(a.as_str().substring_char(2, n).to_owned())
    } else if n >= 1 && a.as_str().get_char(0) == '-' {
        proof {
            assert(a@.skip(1) =~= a@.subrange(1, a@.len() as int));
        }
        Some(a.as_str().substring_char(1, n).to_owned())
    } else {
        None
    }
}

/// Splits a key text at its first equals sign into the key and the
/// trimmed value; a text without one is all key.
fn split_at_eq(arg: &String) -> (r: Option<(String, String)>)
    ensures
        r is Some <==> has_eq(arg@),
        r matches Some(kv) ==> kv.0@ == arg@.subrange(0, first_eq(arg@)) && kv.1@ == trimmed(
            arg@.subrange(first_eq(arg@) + 1, arg@.len() as int),
        ),
{
    let n = arg.as_str().unicode_len();
    let mut k: usize = 0;
    while k < n
        invariant
            n == arg@.len(),
            0 <= k <= n,
            forall|j: int| 0 <= j < k ==> arg@[j] != '=',
        decreases n - k,
    {
        if arg.as_str().get_char(k) == '=' {
            proof {
                assert(has_eq(arg@));
                let f = first_eq(arg@);
                assert(0 <= f < arg@.len() && arg@[f] == '=' && (forall|j: int|
                    0 <= j < f ==> arg@[j] != '='));
                assert(f == k as int) by {
                    if f < k as int {
                        assert(arg@[f] != '=');
                    }
                    if f > k as int {
                        assert(arg@[k as int] != '=');
                    }
                }
            }
            let key = arg.as_str().substring_char(0, k).to_owned();
            let raw = arg.as_str().substring_char(k + 1, n);
            let val = trim_text(raw);
            return Some((key, val));
        }
        k = k + 1;
    }
    proof {
        if has_eq(arg@) {
            let i = choose|i: int| 0 <= i < arg@.len() && arg@[i] == '=';
            assert(arg@[i] != '=');
        }
    }
    None
}

/// The command the process start selects; see `boot_plan`. The caller
/// passes the command-line arguments with the program name removed, and
/// the environment's configuration path if one is set.
pub fn parse_boot_args(args: Vec<String>, env_config: Option<String>) -> (r: BootCommand)
    ensures
        plan_of(r) == boot_plan(arg_views(args@), match env_config {
            Some(c) => Some(c@),
            None => None,
        }),
{
    match env_config {
        Some(c) => BootCommand::Run { config_path: c, op: StoreOp::Nothing },
        None => parse_args(args),
    }
}

/// The command the arguments alone select; see `parse_rec`.
#[verifier::rlimit(80)]
fn parse_args(args: Vec<String>) -> (r: BootCommand)
    ensures
        plan_of(r) == parse_rec(arg_views(args@), None::<Seq<char>>, OpPlan::Nothing),
{
    let ghost all = arg_views(args@);
    proof {
        assert(all.skip(0) =~= all);
    }
    let mut config: Option<String> = None;
    let mut op: StoreOp = StoreOp::Nothing;
    let mut k: usize = 0;
    let mut halted = false;
    while k < args.len() && !halted
        invariant
            all == arg_views(args@),
            all.len() == args@.len(),
            0 <= k <= args@.len(),
            parse_rec(all, None, OpPlan::Nothing) == (if halted {
                finish_plan(
                    match config {
                        Some(c) => Some(c@),
                        None => None,
                    },
                    op_plan_of(op),
                )
            } else {
                parse_rec(
                    all.skip(k as int),
                    match config {
                        Some(c) => Some(c@),
                        None => None,
                    },
                    op_plan_of(op),
                )
            }),
        decreases args@.len() - k + (if halted { 0int } else { 1int }),
    {
        proof {
            assert(all.skip(k as int)[0] == all[k as int]);
            assert(all[k as int] == args@[k as int]@);
        }
        let stripped = strip_dashes_exec(&args[k]);
        let arg = match stripped {
            None => {
                halted = true;
                continue;
            },
            Some(arg) => arg,
        };
        let ghost rest1 = all.skip(k as int).skip(1);
        proof {
            assert(rest1 =~= all.skip(k as int + 1));
        }
        let kv = split_at_eq(&arg);
        let (key, val, consumed): (String, Option<String>, usize) = match kv {
            Some((key, val)) => (key, Some(val), 1),
            None => {
                if k + 1 < args.len() {
                    proof {
                        assert(all.skip(k as int)[1] == all[k as int + 1]);
                        assert(all[k as int + 1] == args@[k as int + 1]@);
                    }
                    (arg, Some(args[k + 1].clone()), 2)
                } else {
                    (arg, None, 1)
                }
            },
        };
        let ghost rest = if consumed == 2 {
            all.skip(k as int + 2)
        } else {
            all.skip(k as int + 1)
        };
        proof {
            if consumed == 2 {
                assert(all.skip(k as int).skip(2) =~= all.skip(k as int + 2));
            }
        }
        proof {
            let cfgv: Option<Seq<char>> = match &config {
                Some(c) => Some(c@),
                None => None,
            };
            let valv: Option<Seq<char>> = match &val {
                Some(v) => Some(v@),
                None => None,
            };
            assert(parse_rec(all.skip(k as int), cfgv, op_plan_of(op)) == step_plan(
                key@,
                valv,
                rest,
                cfgv,
                op_plan_of(op),
            ));
        }
        if key == "help".to_owned() || key == "h".to_owned() {
            return BootCommand::Help;
        } else if key == "version".to_owned() || key == "V".to_owned() {
            return BootCommand::Version;
        } else if (key == "config".to_owned() || key == "c".to_owned()) && val.is_some() {
            config = val;
        } else if (key == "init".to_owned() || key == "I".to_owned()) && val.is_some() {
            match val {
                Some(v) => {
                    return BootCommand::Quickstart(v);
                },
                None => {},
            }
        } else if (key == "export".to_owned() || key == "e".to_owned()) && val.is_some() {
            match val {
                Some(v) => {
                    op = StoreOp::Export(v);
                },
                None => {},
            }
        } else if (key == "import".to_owned() || key == "i".to_owned()) && val.is_some() {
            match val {
                Some(v) => {
                    op = StoreOp::Import(v);
                },
                None => {},
            }
        } else if (key == "console".to_owned() || key == "o".to_owned()) && val.is_none() {
            op = StoreOp::Console;
        } else if val.is_none() {
            return BootCommand::UnknownCommand(key);
        } else {
            return BootCommand::MissingValue(key);
        }
        k = k + consumed;
    }
    proof {
        if !halted {
            assert(all.skip(k as int).len() == 0);
        }
    }
    match config {
        Some(c) => BootCommand::Run { config_path: c, op },
        None => {
            match op {
                StoreOp::Nothing => BootCommand::ShowHelp,
                _ => BootCommand::MissingConfig,
            }
        },
    }
}

} // verus!
