use crosswalk::command::Command;
use crosswalk::parse::parse_command;

const STATE: &[u8] = b"crosswalk/state";
const COUNT: &[u8] = b"crosswalk/count";

#[test]
fn state_words_map_to_commands() {
    assert_eq!(parse_command(STATE, b"OFF"), Some(Command::Off));
    assert_eq!(parse_command(STATE, b"MAN"), Some(Command::Man));
    assert_eq!(parse_command(STATE, b"HAND"), Some(Command::Hand));
    assert_eq!(parse_command(STATE, b"COUNTDOWN"), Some(Command::Countdown));
}

#[test]
fn state_payloads_are_trimmed() {
    assert_eq!(parse_command(STATE, b" OFF\n"), Some(Command::Off));
    assert_eq!(parse_command(STATE, b"\tHAND \r\n"), Some(Command::Hand));
    assert_eq!(parse_command(STATE, b"\x0b\x0cMAN\x0c\x0b"), Some(Command::Man));
    // Unicode whitespace: no-break space, em space, ideographic space.
    assert_eq!(
        parse_command(STATE, "\u{a0}OFF\u{a0}".as_bytes()),
        Some(Command::Off)
    );
    assert_eq!(
        parse_command(STATE, "\u{2003}COUNTDOWN\u{3000}\n".as_bytes()),
        Some(Command::Countdown)
    );
}

#[test]
fn unknown_state_words_are_dropped() {
    assert_eq!(parse_command(STATE, b"off"), None);
    assert_eq!(parse_command(STATE, b"WALK"), None);
    assert_eq!(parse_command(STATE, b""), None);
    assert_eq!(parse_command(STATE, b"OFFX"), None);
    assert_eq!(parse_command(STATE, b"OF F"), None);
}

#[test]
fn count_payloads_parse_as_decimal() {
    assert_eq!(parse_command(COUNT, b"17"), Some(Command::Count(17)));
    assert_eq!(parse_command(COUNT, b"0"), Some(Command::Count(0)));
    assert_eq!(parse_command(COUNT, b"255"), Some(Command::Count(255)));
    assert_eq!(parse_command(COUNT, b"300"), Some(Command::Count(300)));
    assert_eq!(parse_command(COUNT, b"9999999999"), Some(Command::Count(9999999999)));
    assert_eq!(
        parse_command(COUNT, b"18446744073709551615"),
        Some(Command::Count(u64::MAX))
    );
    assert_eq!(parse_command(COUNT, b"007"), Some(Command::Count(7)));
    assert_eq!(parse_command(COUNT, b"+5"), Some(Command::Count(5)));
    assert_eq!(parse_command(COUNT, b" 12 \n"), Some(Command::Count(12)));
    assert_eq!(
        parse_command(COUNT, "\u{2009}42\u{85}".as_bytes()),
        Some(Command::Count(42))
    );
}

#[test]
fn bad_count_payloads_are_dropped() {
    assert_eq!(parse_command(COUNT, b"18446744073709551616"), None);
    assert_eq!(parse_command(COUNT, b"99999999999999999999999"), None);
    assert_eq!(parse_command(COUNT, b""), None);
    assert_eq!(parse_command(COUNT, b"+"), None);
    assert_eq!(parse_command(COUNT, b"-1"), None);
    assert_eq!(parse_command(COUNT, b"1a"), None);
    assert_eq!(parse_command(COUNT, b"1 2"), None);
    assert_eq!(parse_command(COUNT, b"\xff\xfe"), None);
}

#[test]
fn unknown_topics_are_ignored() {
    assert_eq!(parse_command(b"crosswalk/other", b"OFF"), None);
    assert_eq!(parse_command(b"", b"OFF"), None);
    assert_eq!(parse_command(b"crosswalk/statex", b"OFF"), None);
}
