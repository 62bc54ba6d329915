use vstd::prelude::*;

use crate::text::{
    chars_of, hex_value, is_hex_digit, law_hex_argument_digits, parse_hex, parse_hex_argument,
    parse_hex_argument_u32, strip_hex_prefixes, without_underscores,
};

verus! {

/// What the command line asks for.
#[derive(Debug, PartialEq, Eq)]
pub enum Command {
    /// `-h` or `--help`: print the usage and succeed.
    Help,
    /// No command: print the usage and fail.
    Usage,
    /// An option that is not known.
    UnknownOption(String),
    /// A command without an address.
    MissingAddress,
    /// An address that is not a hexadecimal number (underscores may separate digits).
    InvalidAddress(String),
    /// A write without a value.
    MissingValue,
    /// A value that is not a hexadecimal 32-bit number.
    InvalidValue(String),
    /// A command that is neither `read` nor `write`.
    UnknownCommand(String),
    /// Read the register at `address`.
    Read { address: u64, force: bool },
    /// Write `value` to the register at `address`.
    Write { address: u64, value: u32, force: bool },
}

/// The abstract value of a command.
pub enum CommandModel {
    Help,
    Usage,
    UnknownOption(Seq<char>),
    MissingAddress,
    InvalidAddress(Seq<char>),
    MissingValue,
    InvalidValue(Seq<char>),
    UnknownCommand(Seq<char>),
    Read { address: u64, force: bool },
    Write { address: u64, value: u32, force: bool },
}

impl View for Command {
    type V = CommandModel;

    open spec fn view(&self) -> CommandModel {
        match self {
            Command::Help => CommandModel::Help,
            Command::Usage => CommandModel::Usage,
            Command::UnknownOption(a) => CommandModel::UnknownOption(a@),
            Command::MissingAddress => CommandModel::MissingAddress,
            Command::InvalidAddress(a) => CommandModel::InvalidAddress(a@),
            Command::MissingValue => CommandModel::MissingValue,
            Command::InvalidValue(a) => CommandModel::InvalidValue(a@),
            Command::UnknownCommand(a) => CommandModel::UnknownCommand(a@),
            Command::Read { address, force } => CommandModel::Read { address: *address, force: *force },
            Command::Write { address, value, force } => CommandModel::Write {
                address: *address,
                value: *value,
                force: *force,
            },
        }
    }
}

/// Where the options end.
pub enum OptionScan {
    /// A help option was met.
    Help,
    /// An unknown option was met.
    Unknown(Seq<char>),
    /// The options end before argument `index`; `force` was asked for.
    Stop { index: int, force: bool },
}

/// Reads the options from argument `i` on: `-f`/`--force` set `force`,
/// `-h`/`--help` ask for help, an argument that does not start with `-` ends
/// the options, and any other is unknown.
pub open spec fn scan_options(args: Seq<Seq<char>>, i: int, force: bool) -> OptionScan
    decreases args.len() - i,
{
    if i < 0 || i >= args.len() {
        OptionScan::Stop { index: i, force }
    } else if args[i] == "-f"@ || args[i] == "--force"@ {
        scan_options(args, i + 1, true)
    } else if args[i] == "-h"@ || args[i] == "--help"@ {
        OptionScan::Help
    } else if !(args[i].len() > 0 && args[i][0] == '-') {
        OptionScan::Stop { index: i, force }
    } else {
        OptionScan::Unknown(args[i])
    }
}

/// The command that the arguments `args` (the program's name first) ask for.
pub open spec fn command_of(args: Seq<Seq<char>>) -> CommandModel {
    match scan_options(args, 1, false) {
        OptionScan::Help => CommandModel::Help,
        OptionScan::Unknown(a) => CommandModel::UnknownOption(a),
        OptionScan::Stop { index: i, force } => if i >= args.len() {
            CommandModel::Usage
        } else if i + 1 >= args.len() {
            CommandModel::MissingAddress
        } else {
            match parse_hex(without_underscores(strip_hex_prefixes(args[i + 1]))) {
                None => CommandModel::InvalidAddress(args[i + 1]),
                Some(address) => if args[i] == "read"@ {
                    CommandModel::Read { address, force }
                } else if args[i] == "write"@ {
                    if i + 2 >= args.len() {
                        CommandModel::MissingValue
                    } else {
                        match parse_hex(without_underscores(strip_hex_prefixes(args[i + 2]))) {
                            Some(v) => if v <= u32::MAX {
                                CommandModel::Write { address, value: v as u32, force }
                            } else {
                                CommandModel::InvalidValue(args[i + 2])
                            },
                            None => CommandModel::InvalidValue(args[i + 2]),
                        }
                    }
                } else {
                    CommandModel::UnknownCommand(args[i])
                },
            }
        },
    }
}

/// The options met from argument `i` on, with `force` already asked for: the
/// same as without it, but forcing the mapping.
proof fn lemma_scan_forced(args: Seq<Seq<char>>, i: int)
    ensures
        scan_options(args, i, false) matches OptionScan::Stop { index, .. } ==> index >= i,
        scan_options(args, i, true) == match scan_options(args, i, false) {
            OptionScan::Stop { index, .. } => OptionScan::Stop { index, force: true },
            other => other,
        },
    decreases args.len() - i,
{
    if 0 <= i < args.len() && (args[i] == "-f"@ || args[i] == "--force"@) {
        lemma_scan_forced(args, i + 1);
    }
}

/// The options of `g`, which holds `args` from argument 1 on one place later,
/// read from `i + 1` on, are those of `args` read from `i` on.
proof fn lemma_scan_shifted(args: Seq<Seq<char>>, g: Seq<Seq<char>>, i: int, force: bool)
    requires
        i >= 1,
        g.len() == args.len() + 1,
        forall|k: int| 1 <= k < args.len() ==> #[trigger] g[k + 1] == args[k],
    ensures
        scan_options(g, i + 1, force) == match scan_options(args, i, force) {
            OptionScan::Stop { index, force: f } => OptionScan::Stop { index: index + 1, force: f },
            other => other,
        },
    decreases args.len() - i,
{
    if i < args.len() {
        assert(g[i + 1] == args[i]);
        lemma_scan_shifted(args, g, i + 1, true);
        lemma_scan_shifted(args, g, i + 1, force);
    }
}

/// Putting "-f" before the other arguments asks for the same command, with the
/// mapping forced for a read or a write.
pub proof fn law_force_option(args: Seq<Seq<char>>)
    requires
        args.len() >= 1,
    ensures
        command_of(seq![args[0], "-f"@] + args.skip(1)) == match command_of(args) {
            CommandModel::Read { address, .. } => CommandModel::Read { address, force: true },
            CommandModel::Write { address, value, .. } => CommandModel::Write { address, value, force: true },
            other => other,
        },
{
    let g = seq![args[0], "-f"@] + args.skip(1);
    assert(g[1] == "-f"@);
    assert forall|k: int| 1 <= k < args.len() implies #[trigger] g[k + 1] == args[k] by {}
    lemma_scan_shifted(args, g, 1, true);
    lemma_scan_forced(args, 1);
    match scan_options(args, 1, false) {
        OptionScan::Stop { index: i, .. } => {
            if i + 1 < args.len() {
                assert(g[i + 1] == args[i]);
                assert(g[i + 2] == args[i + 1]);
            }
            if i + 2 < args.len() {
                assert(g[i + 3] == args[i + 2]);
            }
        },
        _ => {},
    }
}

/// "read ADDRESS", with ADDRESS hexadecimal digits (a leading "0x" allowed), asks
/// to read the register at that address, without forcing the mapping.
pub proof fn law_read_command(prog: Seq<char>, d: Seq<char>)
    requires
        d.len() > 0,
        forall|i: int| 0 <= i < d.len() ==> is_hex_digit(#[trigger] d[i]),
        hex_value(d) <= u64::MAX,
    ensures
        command_of(seq![prog, "read"@, d]) == (CommandModel::Read { address: hex_value(d) as u64, force: false }),
        command_of(seq![prog, "read"@, seq!['0', 'x'] + d]) == (CommandModel::Read {
            address: hex_value(d) as u64,
            force: false,
        }),
{
    reveal_strlit("read");
    reveal_strlit("-f");
    reveal_strlit("--force");
    reveal_strlit("-h");
    reveal_strlit("--help");
    law_hex_argument_digits(d);
}

/// "write ADDRESS VALUE", with ADDRESS and VALUE hexadecimal digits (each may start
/// with "0x") and VALUE within 32 bits, asks to write that value to the register at
/// that address, without forcing the mapping.
pub proof fn law_write_command(prog: Seq<char>, d: Seq<char>, e: Seq<char>)
    requires
        d.len() > 0,
        forall|i: int| 0 <= i < d.len() ==> is_hex_digit(#[trigger] d[i]),
        hex_value(d) <= u64::MAX,
        e.len() > 0,
        forall|i: int| 0 <= i < e.len() ==> is_hex_digit(#[trigger] e[i]),
        hex_value(e) <= u32::MAX,
    ensures
        command_of(seq![prog, "write"@, d, e]) == (CommandModel::Write {
            address: hex_value(d) as u64,
            value: hex_value(e) as u32,
            force: false,
        }),
        command_of(seq![prog, "write"@, seq!['0', 'x'] + d, seq!['0', 'x'] + e]) == (CommandModel::Write {
            address: hex_value(d) as u64,
            value: hex_value(e) as u32,
            force: false,
        }),
{
    reveal_strlit("read");
    reveal_strlit("write");
    reveal_strlit("-f");
    reveal_strlit("--force");
    reveal_strlit("-h");
    reveal_strlit("--help");
    law_hex_argument_digits(d);
    law_hex_argument_digits(e);
    let x = hex_value(e) as u64;
    assert(x as u32 == hex_value(e) as u32);
}

/// The views of a list of strings.
pub open spec fn views(args: Seq<String>) -> Seq<Seq<char>> {
    args.map_values(|a: String| a@)
}

fn starts_with_dash(a: &String) -> (b: bool)
    ensures
        b == (a@.len() > 0 && a@[0] == '-'),
{
    let c = chars_of(a.as_str());
    c.len() > 0 && c[0] == '-'
}

/// The command that the arguments ask for (the program's name first).
pub fn parse_command(args: &Vec<String>) -> (c: Command)
    ensures
        c@ == command_of(views(args@)),
{
    let ghost v = views(args@);
    let n = args.len();
    let force_short = "-f".to_string();
    let force_long = "--force".to_string();
    let help_short = "-h".to_string();
    let help_long = "--help".to_string();
    let mut force = false;
    let mut i: usize = 1;
    while i < n
        invariant
            v == views(args@),
            n == args@.len(),
            1 <= i,
            force_short@ == "-f"@,
            force_long@ == "--force"@,
            help_short@ == "-h"@,
            help_long@ == "--help"@,
            scan_options(v, 1, false) == scan_options(v, i as int, force),
        ensures
            1 <= i,
            scan_options(v, 1, false) == (OptionScan::Stop { index: i as int, force }),
        decreases n - i,
    {
        let a = &args[i];
        if *a == force_short || *a == force_long {
            force = true;
            i = i + 1;
        } else if *a == help_short || *a == help_long {
            return Command::Help;
        } else if !starts_with_dash(a) {
            break;
        } else {
            return Command::UnknownOption(a.clone());
        }
    }
    if i >= n {
        return Command::Usage;
    }
    if i + 1 >= n {
        return Command::MissingAddress;
    }
    let address = match parse_hex_argument(args[i + 1].as_str()) {
        Some(addr) => addr,
        None => {
            return Command::InvalidAddress(args[i + 1].clone());
        },
    };
    if args[i] == "read".to_string() {
        Command::Read { address, force }
    } else if args[i] == "write".to_string() {
        if i + 2 >= n {
            return Command::MissingValue;
        }
        match parse_hex_argument_u32(args[i + 2].as_str()) {
            Some(value) => Command::Write { address, value, force },
            None => Command::InvalidValue(args[i + 2].clone()),
        }
    } else {
        Command::UnknownCommand(args[i].clone())
    }
}

} // verus!
