use omst::shadow::{login_defs_uid_range, omst, Def, Error, Operation, Problem, UidRange};

fn parse(config: &[u8]) -> Result<(u32, u32), Error> {
    login_defs_uid_range(&config.to_vec())
}

#[test]
fn plain_config() {
    assert_eq!(parse(b"UID_MIN 1000\nUID_MAX 60000\n"), Ok((1000, 60000)));
}

#[test]
fn no_trailing_newline() {
    assert_eq!(parse(b"UID_MIN 1000\nUID_MAX 60000"), Ok((1000, 60000)));
}

#[test]
fn comment_after_value() {
    assert_eq!(parse(b"UID_MIN 1000 # comment\nUID_MAX 60000\n"), Ok((1000, 60000)));
}

#[test]
fn comment_touching_value() {
    assert_eq!(parse(b"UID_MIN 1000#5\nUID_MAX 60000\n"), Ok((1000, 60000)));
}

#[test]
fn truncation_at_last_hash() {
    // The effective line keeps the first `#`; only the last one truncates.
    // The parser reads a single value token, so the kept `#` is ignored.
    assert_eq!(parse(b"UID_MIN 9 # a # b\nUID_MAX 60000\n"), Ok((9, 60000)));
}

#[test]
fn comment_swallows_value() {
    // The only `#` stands before the value, so the definition loses it.
    assert_eq!(
        parse(b"UID_MIN # 1000\nUID_MAX 60000\n"),
        Err(Error::InvalidDef { def: Def::Min, problem: Problem::Empty })
    );
}

#[test]
fn duplicate_key_last_wins() {
    assert_eq!(parse(b"UID_MIN 1\nUID_MIN 2\nUID_MAX 60000\n"), Ok((2, 60000)));
    assert_eq!(parse(b"UID_MAX 9\nUID_MIN 1\nUID_MAX 60000\n"), Ok((1, 60000)));
}

#[test]
fn order_independent_for_single_keys() {
    assert_eq!(
        parse(b"UID_MIN 10\nUID_MAX 20\n"),
        parse(b"UID_MAX 20\nUID_MIN 10\n")
    );
    assert_eq!(
        parse(b"OTHER 1\nUID_MIN 10\nUID_MAX 20\n"),
        parse(b"UID_MIN 10\nOTHER 1\nUID_MAX 20\n")
    );
}

#[test]
fn parse_is_idempotent() {
    let config = b"UID_MIN 10\nUID_MAX 20\n";
    assert_eq!(parse(config), parse(config));
    let bad = b"UID_MIN abc\n";
    assert_eq!(parse(bad), parse(bad));
}

#[test]
fn missing_max_named() {
    assert_eq!(
        parse(b"UID_MIN 1000\n"),
        Err(Error::InvalidDef { def: Def::Max, problem: Problem::Missing })
    );
}

#[test]
fn missing_min_reported_first() {
    assert_eq!(
        parse(b""),
        Err(Error::InvalidDef { def: Def::Min, problem: Problem::Missing })
    );
    assert_eq!(
        parse(b"UID_MAX 60000\n"),
        Err(Error::InvalidDef { def: Def::Min, problem: Problem::Missing })
    );
}

#[test]
fn invalid_value_keeps_bytes() {
    assert_eq!(
        parse(b"UID_MIN abc\nUID_MAX 60000\n"),
        Err(Error::InvalidDef {
            def: Def::Min,
            problem: Problem::Invalid { data: b"abc".to_vec() },
        })
    );
}

#[test]
fn trailing_garbage_is_invalid() {
    assert_eq!(
        parse(b"UID_MIN 1000x\nUID_MAX 60000\n"),
        Err(Error::InvalidDef {
            def: Def::Min,
            problem: Problem::Invalid { data: b"1000x".to_vec() },
        })
    );
}

#[test]
fn empty_value() {
    assert_eq!(
        parse(b"UID_MIN\nUID_MAX 60000\n"),
        Err(Error::InvalidDef { def: Def::Min, problem: Problem::Empty })
    );
    assert_eq!(
        parse(b"UID_MIN 5\nUID_MAX   \n"),
        Err(Error::InvalidDef { def: Def::Max, problem: Problem::Empty })
    );
}

#[test]
fn unrecognized_keys_ignored() {
    assert_eq!(
        parse(b"SYS_UID_MIN 101\nUID_MIN 5\nPASS_MAX_DAYS 99\nUID_MAX 9\nSUB_UID_MAX 600100000\n"),
        Ok((5, 9))
    );
    // Keys are case-sensitive and exact.
    assert_eq!(
        parse(b"uid_min 5\nUID_MINIMUM 6\nUID_MIN 7\nUID_MAX 9\n"),
        Ok((7, 9))
    );
}

#[test]
fn whitespace_and_blank_lines() {
    assert_eq!(
        parse(b"\n   \n\t UID_MIN\t7\n# only a comment\nUID_MAX  8  \n"),
        Ok((7, 8))
    );
}

#[test]
fn leading_zeros() {
    let r = parse(b"UID_MIN 0042\nUID_MAX 60000\n");
    assert_eq!(r, Ok((42, 60000)));
    // The token parses as the same number that a plain decimal reader gives.
    assert_eq!(atoi::atoi::<u32>(b"0042"), Some(42));
}

#[test]
fn uid_domain_boundary() {
    assert_eq!(parse(b"UID_MIN 0\nUID_MAX 4294967295\n"), Ok((0, 4294967295)));
    assert_eq!(
        parse(b"UID_MIN 5\nUID_MAX 4294967296\n"),
        Err(Error::InvalidDef {
            def: Def::Max,
            problem: Problem::Invalid { data: b"4294967296".to_vec() },
        })
    );
}

#[test]
fn first_bad_line_stops_the_parse() {
    // UID_MAX's valid later line is never reached.
    assert_eq!(
        parse(b"UID_MIN x\nUID_MAX 60000\n"),
        Err(Error::InvalidDef {
            def: Def::Min,
            problem: Problem::Invalid { data: b"x".to_vec() },
        })
    );
}

#[test]
fn root_is_zero_whatever_the_config() {
    assert_eq!(omst(0, &b"UID_MIN 1000\nUID_MAX 60000\n".to_vec()), Ok(UidRange::Zero));
    assert_eq!(omst(0, &b"".to_vec()), Ok(UidRange::Zero));
    assert_eq!(omst(0, &b"UID_MIN garbage\n\x00\xff".to_vec()), Ok(UidRange::Zero));
}

#[test]
fn uid_against_range() {
    let config = b"UID_MIN 1000\nUID_MAX 60000\n".to_vec();
    assert_eq!(omst(999, &config), Ok(UidRange::BelowMin));
    assert_eq!(omst(1000, &config), Ok(UidRange::InRange));
    assert_eq!(omst(30000, &config), Ok(UidRange::InRange));
    assert_eq!(omst(60000, &config), Ok(UidRange::InRange));
    assert_eq!(omst(60001, &config), Ok(UidRange::AboveMax));
    assert_eq!(omst(1, &config), Ok(UidRange::BelowMin));
}

#[test]
fn parse_error_propagates() {
    assert_eq!(
        omst(5, &b"UID_MIN abc\n".to_vec()),
        Err(Error::InvalidDef {
            def: Def::Min,
            problem: Problem::Invalid { data: b"abc".to_vec() },
        })
    );
}

#[test]
fn classification_succeeds_on_well_formed_config() {
    let config = b"UID_MIN 1000\nUID_MAX 60000\n".to_vec();
    assert!(omst(4242, &config).is_ok());
}

#[test]
fn invalid_def_message() {
    let e = Error::InvalidDef {
        def: Def::Min,
        problem: Problem::Invalid { data: b"abc".to_vec() },
    };
    assert_eq!(e.message(), "UID_MIN in /etc/login.defs was not a valid UID (abc)");
}

#[test]
fn missing_def_message() {
    let e = Error::InvalidDef { def: Def::Max, problem: Problem::Missing };
    assert_eq!(e.message(), "UID_MAX in /etc/login.defs was missing");
}

#[test]
fn io_error_message() {
    let e = Error::login_defs(Operation::Open, String::from("permission denied"));
    assert_eq!(
        e.message(),
        "could not open /etc/login.defs due to error: permission denied"
    );
    let e = Error::login_defs(Operation::Read, String::from("boom"));
    assert_eq!(e.message(), "could not read /etc/login.defs due to error: boom");
}

#[test]
fn invalid_bytes_render_escaped() {
    let e = Error::InvalidDef {
        def: Def::Min,
        problem: Problem::Invalid { data: vec![7, b'a', b'\\', b'"', 0xff] },
    };
    assert_eq!(
        e.message(),
        "UID_MIN in /etc/login.defs was not a valid UID (\\x07a\\\\\\\"\\xff)"
    );
}
