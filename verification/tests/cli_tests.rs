use mmreg::{parse_command, Command};

fn args(list: &[&str]) -> Vec<String> {
    list.iter().map(|s| s.to_string()).collect()
}

#[test]
fn usage_example_with_separators() {
    assert_eq!(parse_command(&args(&["mmreg", "read", "0x4000_0000"])), Command::Read { address: 0x4000_0000, force: false });
    assert_eq!(
        parse_command(&args(&["mmreg", "write", "0x4000_0000", "0xDEAD_BEEF"])),
        Command::Write { address: 0x4000_0000, value: 0xDEAD_BEEF, force: false }
    );
}

#[test]
fn read_command() {
    assert_eq!(parse_command(&args(&["mmreg", "read", "0x40000000"])), Command::Read { address: 0x4000_0000, force: false });
}

#[test]
fn forced_write_command() {
    assert_eq!(
        parse_command(&args(&["mmreg", "--force", "write", "0x1000", "0xDEADBEEF"])),
        Command::Write { address: 0x1000, value: 0xDEAD_BEEF, force: true }
    );
    assert_eq!(
        parse_command(&args(&["mmreg", "-f", "-f", "read", "10"])),
        Command::Read { address: 0x10, force: true }
    );
}

#[test]
fn help_option_wins_over_later_errors() {
    assert_eq!(parse_command(&args(&["mmreg", "-h", "bogus"])), Command::Help);
    assert_eq!(parse_command(&args(&["mmreg", "-f", "--help"])), Command::Help);
}

#[test]
fn unknown_option() {
    assert_eq!(parse_command(&args(&["mmreg", "-x", "read", "10"])), Command::UnknownOption("-x".to_string()));
    assert_eq!(parse_command(&args(&["mmreg", "-"])), Command::UnknownOption("-".to_string()));
}

#[test]
fn missing_pieces() {
    assert_eq!(parse_command(&args(&["mmreg"])), Command::Usage);
    assert_eq!(parse_command(&args(&["mmreg", "-f"])), Command::Usage);
    assert_eq!(parse_command(&args(&["mmreg", "read"])), Command::MissingAddress);
    assert_eq!(parse_command(&args(&["mmreg", "write", "0x10"])), Command::MissingValue);
}

#[test]
fn invalid_numbers() {
    assert_eq!(parse_command(&args(&["mmreg", "read", "0xzz"])), Command::InvalidAddress("0xzz".to_string()));
    assert_eq!(parse_command(&args(&["mmreg", "read", "0x_"])), Command::InvalidAddress("0x_".to_string()));
    assert_eq!(
        parse_command(&args(&["mmreg", "write", "0x10", "0x100000000"])),
        Command::InvalidValue("0x100000000".to_string())
    );
}

#[test]
fn address_is_checked_before_command() {
    assert_eq!(parse_command(&args(&["mmreg", "peek", "zz"])), Command::InvalidAddress("zz".to_string()));
    assert_eq!(parse_command(&args(&["mmreg", "peek", "10"])), Command::UnknownCommand("peek".to_string()));
}
