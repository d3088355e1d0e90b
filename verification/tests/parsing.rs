use dhcpd_parser::common::{Date, ErrorKind, ParseError};
use dhcpd_parser::leases::{
    parse_lease, parse_statement, unquote_hostname, Hardware, Lease, LeaseKeyword, Leases,
    LeasesField, LeasesMethods,
};
use dhcpd_parser::lex::{classify_word, lex, LexItem};
use dhcpd_parser::parser::{parse, parse_config, ConfigKeyword};

fn word(s: &str) -> LexItem {
    LexItem::Word(s.to_owned())
}

fn instant(year: u16, month: u8, day: u8, hour: u8, minute: u8, second: u8) -> Date {
    Date { weekday: 0, year, month, day, hour, minute, second }
}

#[test]
fn date_from_reads_each_field() {
    let d = Date::from("2", "2019/01/31", "22:05:59").unwrap();
    assert_eq!(
        d,
        Date { weekday: 2, year: 2019, month: 1, day: 31, hour: 22, minute: 5, second: 59 }
    );
}

#[test]
fn date_from_rejects_bad_weekday() {
    let e = Date::from("7", "2019/01/31", "22:05:59").unwrap_err();
    assert_eq!(e, ParseError { kind: ErrorKind::InvalidWeekday, found: "7".to_owned() });
    let e = Date::from("monday", "2019/01/31", "22:05:59").unwrap_err();
    assert_eq!(e.kind, ErrorKind::InvalidWeekday);
    let e = Date::from("", "2019/01/31", "22:05:59").unwrap_err();
    assert_eq!(e.kind, ErrorKind::InvalidWeekday);
}

#[test]
fn date_from_rejects_bad_date() {
    for bad in ["2019-01-31", "2019/13/01", "2019/00/10", "2019/01/32", "2019/01/00", "19/01/31", "2019/1/31", "20a9/01/31"] {
        let e = Date::from("2", bad, "22:05:59").unwrap_err();
        assert_eq!(e, ParseError { kind: ErrorKind::InvalidDate, found: bad.to_owned() });
    }
}

#[test]
fn date_from_rejects_bad_time() {
    for bad in ["24:00:00", "23:60:00", "23:59:61", "23.59.59", "1:02:03", "aa:bb:cc"] {
        let e = Date::from("2", "2019/01/31", bad).unwrap_err();
        assert_eq!(e, ParseError { kind: ErrorKind::InvalidTime, found: bad.to_owned() });
    }
    assert!(Date::from("2", "2019/01/31", "23:59:60").is_ok());
    assert!(Date::from("0", "0001/12/01", "00:00:00").is_ok());
}

#[test]
fn date_from_reports_first_malformed_part() {
    let e = Date::from("9", "bad", "bad").unwrap_err();
    assert_eq!(e.kind, ErrorKind::InvalidWeekday);
    let e = Date::from("1", "bad", "bad").unwrap_err();
    assert_eq!(e.kind, ErrorKind::InvalidDate);
}

#[test]
fn instants_compare_by_date_then_time() {
    let a = instant(2019, 1, 1, 0, 0, 0);
    let b = instant(2019, 1, 1, 0, 0, 1);
    let c = instant(2020, 1, 1, 0, 0, 0);
    let d = instant(2019, 2, 1, 0, 0, 0);
    assert!(a.is_before(&b));
    assert!(!b.is_before(&a));
    assert!(!a.is_before(&a));
    assert!(b.is_before(&c));
    assert!(a.is_before(&c));
    assert!(c.is_after(&d));
    assert!(d.is_after(&b));
    assert!(!a.is_after(&a));
    let other_weekday = Date { weekday: 5, ..a };
    assert!(!a.is_before(&other_weekday));
    assert!(!a.is_after(&other_weekday));
    assert!(instant(2019, 1, 2, 0, 0, 0).is_after(&instant(2019, 1, 1, 23, 59, 59)));
    assert!(instant(2019, 1, 1, 1, 0, 0).is_after(&instant(2019, 1, 1, 0, 59, 59)));
    assert!(instant(2019, 1, 1, 0, 1, 0).is_after(&instant(2019, 1, 1, 0, 0, 59)));
}

#[test]
fn error_messages() {
    let e = ParseError::new(ErrorKind::ExpectedTerminator, "uid");
    assert_eq!(e.to_string(), "Expected semicolon, found uid");
    assert_eq!(ParseError::at_end().to_string(), "Unexpected end of input");
    assert_eq!(ParseError::new(ErrorKind::ExpectedValue, ";").to_string(), "Expected a value, found ;");
    assert_eq!(ParseError::at_end().found, "");
    assert_eq!(ParseError::new(ErrorKind::UnexpectedOption, "{").to_string(), "Unexpected option {");
    assert_eq!(ParseError::new(ErrorKind::UnexpectedToken, "subnet").to_string(), "Unexpected subnet");
    assert_eq!(ParseError::new(ErrorKind::ExpectedOpenBrace, ";").to_string(), "Expected '{', got ;");
    assert_eq!(
        ParseError::new(ErrorKind::ExpectedCloseBrace, "").to_string(),
        "Expected end of section with '}', got "
    );
    assert_eq!(ParseError::new(ErrorKind::InvalidWeekday, "9").to_string(), "Invalid weekday 9");
    assert_eq!(ParseError::new(ErrorKind::InvalidDate, "x").to_string(), "Invalid date x");
    assert_eq!(ParseError::new(ErrorKind::InvalidTime, "y").to_string(), "Invalid time y");
    assert_eq!(
        ParseError::new(ErrorKind::UnrecognizedOption, "z").to_string(),
        "Not a recognized lease option: z"
    );
    assert_eq!(
        ParseError::new(ErrorKind::UnsupportedDeclaration, "w").to_string(),
        "Declaration is not supported: w"
    );
}

#[test]
fn lease_keywords_read_back() {
    let all = [
        (LeaseKeyword::Abandoned, "abandoned"),
        (LeaseKeyword::Binding, "binding"),
        (LeaseKeyword::ClientHostname, "client-hostname"),
        (LeaseKeyword::Cltt, "cltt"),
        (LeaseKeyword::Ends, "ends"),
        (LeaseKeyword::Next, "next"),
        (LeaseKeyword::Hardware, "hardware"),
        (LeaseKeyword::Hostname, "hostname"),
        (LeaseKeyword::Rewind, "rewind"),
        (LeaseKeyword::SetVariable, "set"),
        (LeaseKeyword::Starts, "starts"),
        (LeaseKeyword::Uid, "uid"),
    ];
    for (k, text) in all {
        assert_eq!(k.to_string(), text);
        assert_eq!(LeaseKeyword::from(text), Ok(k));
    }
}

#[test]
fn lease_keyword_rejects_other_words() {
    let e = LeaseKeyword::from("Starts").unwrap_err();
    assert_eq!(e, ParseError { kind: ErrorKind::UnrecognizedOption, found: "Starts".to_owned() });
    assert!(LeaseKeyword::from("").is_err());
    assert!(LeaseKeyword::from("lease").is_err());
}

#[test]
fn config_keywords() {
    assert_eq!(ConfigKeyword::Lease.to_string(), "lease");
    assert_eq!(ConfigKeyword::Comment.to_string(), "#");
    assert_eq!(ConfigKeyword::from("lease"), Ok(ConfigKeyword::Lease));
    assert_eq!(ConfigKeyword::from("#"), Ok(ConfigKeyword::Comment));
    assert_eq!(ConfigKeyword::from("# a comment"), Ok(ConfigKeyword::Comment));
    let e = ConfigKeyword::from("subnet").unwrap_err();
    assert_eq!(e, ParseError { kind: ErrorKind::UnsupportedDeclaration, found: "subnet".to_owned() });
    assert!(ConfigKeyword::from("").is_err());
    assert!(ConfigKeyword::from("Lease").is_err());
}

#[test]
fn token_texts() {
    assert_eq!(LexItem::OpenBrace.to_string(), "{");
    assert_eq!(LexItem::CloseBrace.to_string(), "}");
    assert_eq!(LexItem::Endl.to_string(), ";");
    assert_eq!(word("10.0.0.1").to_string(), "10.0.0.1");
    assert_eq!(LexItem::Opt(LeaseKeyword::Binding).to_string(), "binding");
    assert_eq!(LexItem::Decl(ConfigKeyword::Lease).to_string(), "lease");
    assert_eq!(LexItem::Decl(ConfigKeyword::Comment).to_string(), "#");
}

#[test]
fn classify_words() {
    assert_eq!(classify_word("lease"), LexItem::Decl(ConfigKeyword::Lease));
    assert_eq!(classify_word("#x"), LexItem::Decl(ConfigKeyword::Comment));
    assert_eq!(classify_word("uid"), LexItem::Opt(LeaseKeyword::Uid));
    assert_eq!(classify_word("ethernet"), word("ethernet"));
}

#[test]
fn lex_splits_a_lease_block() {
    let tokens = lex("lease 10.0.0.5 {\n  starts 2 2019/01/01 22:00:00 UTC;\n\thostname \"a b\";\r\n}");
    assert_eq!(
        tokens,
        vec![
            LexItem::Decl(ConfigKeyword::Lease),
            word("10.0.0.5"),
            LexItem::OpenBrace,
            LexItem::Opt(LeaseKeyword::Starts),
            word("2"),
            word("2019/01/01"),
            word("22:00:00"),
            word("UTC"),
            LexItem::Endl,
            LexItem::Opt(LeaseKeyword::Hostname),
            word("\"a b\""),
            LexItem::Endl,
            LexItem::CloseBrace,
        ]
    );
}

#[test]
fn lex_edge_cases() {
    assert_eq!(lex(""), vec![]);
    assert_eq!(lex(" \n\t\r"), vec![]);
    assert_eq!(lex("# only a comment"), vec![LexItem::Decl(ConfigKeyword::Comment)]);
    assert_eq!(
        lex("# one\n# two\nlease"),
        vec![
            LexItem::Decl(ConfigKeyword::Comment),
            LexItem::Decl(ConfigKeyword::Comment),
            LexItem::Decl(ConfigKeyword::Lease),
        ]
    );
    assert_eq!(lex("a;b"), vec![word("a"), LexItem::Endl, word("b")]);
    assert_eq!(lex("{}"), vec![LexItem::OpenBrace, LexItem::CloseBrace]);
    assert_eq!(lex("\"open; {"), vec![word("\"open; {")]);
    assert_eq!(lex("\"\"x"), vec![word("\"\""), word("x")]);
    assert_eq!(lex("a#b c\"d"), vec![word("a#b"), word("c\"d")]);
    assert_eq!(lex("h\u{e9}te;"), vec![word("h\u{e9}te"), LexItem::Endl]);
    assert_eq!(lex("set"), vec![LexItem::Opt(LeaseKeyword::SetVariable)]);
}

#[test]
fn unquote_removes_every_quote() {
    assert_eq!(unquote_hostname("\"host\"".to_owned()), "host");
    assert_eq!(unquote_hostname("host".to_owned()), "host");
    assert_eq!(unquote_hostname("h\"o\"st\"".to_owned()), "host");
    assert_eq!(unquote_hostname("\"\"".to_owned()), "");
    assert_eq!(unquote_hostname("".to_owned()), "");
    assert_eq!(unquote_hostname("\"h\u{f6}st\"".to_owned()), "h\u{f6}st");
}

#[test]
fn quoted_and_plain_hostname_store_alike() {
    let quoted = parse("lease 1.1.1.1 { hostname \"host\"; client-hostname \"c\"; }").unwrap();
    let plain = parse("lease 1.1.1.1 { hostname host; client-hostname c; }").unwrap();
    assert_eq!(quoted, plain);
    assert_eq!(quoted.leases.get(0).hostname, Some("host".to_owned()));
    assert_eq!(quoted.leases.get(0).client_hostname, Some("c".to_owned()));
}

#[test]
fn new_lease_is_blank() {
    let l = Lease::new();
    assert_eq!(l.ip, "localhost");
    assert_eq!(l.dates.starts, None);
    assert_eq!(l.dates.ends, None);
    assert_eq!(l.hardware, None);
    assert_eq!(l.uid, None);
    assert_eq!(l.client_hostname, None);
    assert_eq!(l.hostname, None);
    assert!(!l.abandoned);
    assert_eq!(l.cltt, None);
    assert_eq!(l.binding, None);
    assert_eq!(l.next_binding, None);
    assert_eq!(l.rewind_binding, None);
    assert_eq!(Lease::for_address("10.1.1.1".to_owned()).ip, "10.1.1.1");
    assert_eq!(l.clone(), l);
}

#[test]
fn parse_lease_reads_every_statement() {
    let tokens = lex(
        "starts 2 2019/01/01 22:00:00 UTC; ends 2 2019/01/01 23:00:00; cltt 3 2019/01/02 01:02:03; \
         hardware ethernet aa:bb:cc:dd:ee:ff; uid \"\\001abc\"; client-hostname \"foo\"; \
         hostname \"bar\"; binding state active; next binding state free; \
         rewind binding state abandoned; set x; } lease",
    );
    let mut lease = Lease::new();
    let mut pos = 0;
    assert_eq!(parse_lease(&mut lease, &tokens, &mut pos), Ok(()));
    assert_eq!(tokens[pos], LexItem::CloseBrace);
    assert_eq!(pos, tokens.len() - 2);
    assert_eq!(lease.ip, "localhost");
    assert_eq!(lease.dates.starts, Some(Date { weekday: 2, ..instant(2019, 1, 1, 22, 0, 0) }));
    assert_eq!(lease.dates.ends, Some(Date { weekday: 2, ..instant(2019, 1, 1, 23, 0, 0) }));
    assert_eq!(lease.cltt, Some(Date { weekday: 3, ..instant(2019, 1, 2, 1, 2, 3) }));
    assert_eq!(
        lease.hardware,
        Some(Hardware { h_type: "ethernet".to_owned(), mac: "aa:bb:cc:dd:ee:ff".to_owned() })
    );
    assert_eq!(lease.uid, Some("\"\\001abc\"".to_owned()));
    assert_eq!(lease.client_hostname, Some("foo".to_owned()));
    assert_eq!(lease.hostname, Some("bar".to_owned()));
    assert!(!lease.abandoned);
    assert_eq!(lease.binding, Some("active".to_owned()));
    assert_eq!(lease.next_binding, Some("free".to_owned()));
    assert_eq!(lease.rewind_binding, Some("abandoned".to_owned()));
}

#[test]
fn parse_lease_stops_at_end_of_input() {
    let tokens = lex("abandoned;");
    let mut lease = Lease::new();
    let mut pos = 0;
    assert_eq!(parse_lease(&mut lease, &tokens, &mut pos), Ok(()));
    assert_eq!(pos, 2);
    assert!(lease.abandoned);
    let mut pos = 7;
    assert_eq!(parse_lease(&mut lease, &tokens, &mut pos), Ok(()));
    assert_eq!(pos, 7);
}

#[test]
fn repeated_statement_overwrites() {
    let r = parse("lease 1.1.1.1 { uid a; uid b; hostname x; hostname y; }").unwrap();
    assert_eq!(r.leases.len(), 1);
    assert_eq!(r.leases.get(0).uid, Some("b".to_owned()));
    assert_eq!(r.leases.get(0).hostname, Some("y".to_owned()));
}

#[test]
fn abandoned_statement_sets_the_flag() {
    for body in [
        "abandoned;",
        "abandoned; hostname a;",
        "starts 1 2020/02/02 10:00:00; abandoned; ends 1 2020/02/03 10:00:00; binding state free;",
        "uid abandoned; abandoned;",
    ] {
        let r = parse(&format!("lease 10.0.0.1 {{ {} }}", body)).unwrap();
        assert!(r.leases.get(0).abandoned);
    }
    let r = parse("lease 10.0.0.1 { uid abandoned; binding state abandoned; }").unwrap();
    assert!(!r.leases.get(0).abandoned);
}

#[test]
fn time_zone_is_discarded() {
    let with = parse(
        "lease 1.1.1.1 { starts 2 2019/01/01 22:00:00 UTC; ends 2 2019/01/01 23:00:00 CET; cltt 2 2019/01/01 22:30:00 UTC; }",
    )
    .unwrap();
    let without = parse(
        "lease 1.1.1.1 { starts 2 2019/01/01 22:00:00; ends 2 2019/01/01 23:00:00; cltt 2 2019/01/01 22:30:00; }",
    )
    .unwrap();
    assert_eq!(with, without);
    let l = with.leases.get(0);
    assert_eq!(l.dates.starts, Some(Date { weekday: 2, ..instant(2019, 1, 1, 22, 0, 0) }));
    assert_eq!(l.dates.ends, Some(Date { weekday: 2, ..instant(2019, 1, 1, 23, 0, 0) }));
    assert_eq!(l.cltt, Some(Date { weekday: 2, ..instant(2019, 1, 1, 22, 30, 0) }));
}

#[test]
fn two_time_zone_tokens_fail() {
    let e = parse("lease 1.1.1.1 { starts 2 2019/01/01 22:00:00 UTC extra; }").unwrap_err();
    assert_eq!(e, ParseError { kind: ErrorKind::ExpectedTerminator, found: "extra".to_owned() });
}

#[test]
fn bad_instant_fails_the_parse() {
    let e = parse("lease 1.1.1.1 { starts 2 2019/01/01 25:00:00; }").unwrap_err();
    assert_eq!(e, ParseError { kind: ErrorKind::InvalidTime, found: "25:00:00".to_owned() });
    let e = parse("lease 1.1.1.1 { ends x 2019/01/01 22:00:00; }").unwrap_err();
    assert_eq!(e.kind, ErrorKind::InvalidWeekday);
    let e = parse("lease 1.1.1.1 { cltt 2 never 22:00:00; }").unwrap_err();
    assert_eq!(e.kind, ErrorKind::InvalidDate);
}

#[test]
fn parse_statement_leaves_record_on_failure() {
    let tokens = lex("uid abc hostname");
    let mut lease = Lease::new();
    let e = parse_statement(&mut lease, LeaseKeyword::Uid, &tokens, 0).unwrap_err();
    assert_eq!(e, ParseError { kind: ErrorKind::ExpectedTerminator, found: "hostname".to_owned() });
    assert_eq!(lease, Lease::new());
    let tokens = lex("uid abc;");
    assert_eq!(parse_statement(&mut lease, LeaseKeyword::Uid, &tokens, 0), Ok(2));
    assert_eq!(lease.uid, Some("abc".to_owned()));
    assert_eq!(
        parse_statement(&mut lease, LeaseKeyword::Uid, &tokens, 2),
        Err(ParseError::at_end())
    );
    assert_eq!(
        parse_statement(&mut lease, LeaseKeyword::Abandoned, &tokens, 9),
        Err(ParseError::at_end())
    );
}

#[test]
fn missing_terminator_after_uid_fails() {
    let e = parse("lease 10.0.0.5 { uid \"abc\" }").unwrap_err();
    assert_eq!(e, ParseError { kind: ErrorKind::ExpectedTerminator, found: "}".to_owned() });
    let e = parse("lease 10.0.0.5 { uid \"abc\"").unwrap_err();
    assert_eq!(e, ParseError::at_end());
    let e = parse("lease 10.0.0.5 { uid \"abc\" hostname x; }").unwrap_err();
    assert_eq!(e.kind, ErrorKind::ExpectedTerminator);
    assert_eq!(e.found, "hostname");
}

#[test]
fn hardware_needs_both_values() {
    let e = parse("lease 10.0.0.5 { hardware ethernet; }").unwrap_err();
    assert_eq!(e, ParseError { kind: ErrorKind::ExpectedValue, found: ";".to_owned() });
    let e = parse("lease 10.0.0.5 { hardware ethernet; ; }").unwrap_err();
    assert_eq!(e.kind, ErrorKind::ExpectedValue);
    let e = parse("lease 10.0.0.5 { hardware; }").unwrap_err();
    assert_eq!(e.kind, ErrorKind::ExpectedValue);
    let e = parse("lease 10.0.0.5 { hardware").unwrap_err();
    assert_eq!(e, ParseError::at_end());
    let e = parse("lease 10.0.0.5 { hardware ethernet").unwrap_err();
    assert_eq!(e, ParseError::at_end());
    let e = parse("lease 10.0.0.5 { hardware ethernet aa:bb").unwrap_err();
    assert_eq!(e, ParseError::at_end());
}

#[test]
fn values_must_be_values() {
    let e = parse("lease 10.0.0.5 { uid ; }").unwrap_err();
    assert_eq!(e, ParseError { kind: ErrorKind::ExpectedValue, found: ";".to_owned() });
    let e = parse("lease 10.0.0.5 { hostname }").unwrap_err();
    assert_eq!(e, ParseError { kind: ErrorKind::ExpectedValue, found: "}".to_owned() });
    let e = parse("lease 10.0.0.5 { starts 2 2019/01/01 ; }").unwrap_err();
    assert_eq!(e, ParseError { kind: ErrorKind::ExpectedValue, found: ";".to_owned() });
    let e = parse("lease 10.0.0.5 { starts 2 2019/01/01 22:00:00 { ; }").unwrap_err();
    assert_eq!(e, ParseError { kind: ErrorKind::ExpectedTerminator, found: "{".to_owned() });
    let e = parse("lease 10.0.0.5 { set ; }").unwrap_err();
    assert_eq!(e.kind, ErrorKind::ExpectedValue);
    let e = parse("lease 10.0.0.5 { binding state ; }").unwrap_err();
    assert_eq!(e.kind, ErrorKind::ExpectedValue);
    let e = parse("lease { }").unwrap_err();
    assert_eq!(e, ParseError { kind: ErrorKind::ExpectedValue, found: "{".to_owned() });
    let r = parse("lease lease { uid uid; hostname hostname; binding state binding; }").unwrap();
    assert_eq!(r.leases.get(0).ip, "lease");
    assert_eq!(r.leases.get(0).uid, Some("uid".to_owned()));
    assert_eq!(r.leases.get(0).hostname, Some("hostname".to_owned()));
    assert_eq!(r.leases.get(0).binding, Some("binding".to_owned()));
}

#[test]
fn unknown_option_in_block_fails() {
    let e = parse("lease 10.0.0.5 { option x; }").unwrap_err();
    assert_eq!(e, ParseError { kind: ErrorKind::UnexpectedOption, found: "option".to_owned() });
    let e = parse("lease 10.0.0.5 { { }").unwrap_err();
    assert_eq!(e, ParseError { kind: ErrorKind::UnexpectedOption, found: "{".to_owned() });
    let mut lease = Lease::new();
    let tokens = lex("uid a; lease");
    let mut pos = 0;
    let e = parse_lease(&mut lease, &tokens, &mut pos).unwrap_err();
    assert_eq!(e, ParseError { kind: ErrorKind::UnexpectedOption, found: "lease".to_owned() });
    assert_eq!(pos, 3);
    assert_eq!(lease.uid, Some("a".to_owned()));
}

#[test]
fn unknown_top_level_keyword_fails() {
    let e = parse("subnet 10.0.0.0 { }").unwrap_err();
    assert_eq!(e, ParseError { kind: ErrorKind::UnexpectedToken, found: "subnet".to_owned() });
    let r = parse("lease 10.0.0.5 { uid a; }\nsubnet 10.0.0.0 { }");
    assert_eq!(r, Err(ParseError { kind: ErrorKind::UnexpectedToken, found: "subnet".to_owned() }));
    let e = parse("uid a;").unwrap_err();
    assert_eq!(e, ParseError { kind: ErrorKind::UnexpectedToken, found: "uid".to_owned() });
}

#[test]
fn declaration_shape_failures() {
    assert_eq!(parse("lease").unwrap_err(), ParseError::at_end());
    assert_eq!(parse("lease 1.1.1.1").unwrap_err(), ParseError::at_end());
    let e = parse("lease 1.1.1.1 ; }").unwrap_err();
    assert_eq!(e, ParseError { kind: ErrorKind::ExpectedOpenBrace, found: ";".to_owned() });
    let e = parse("lease 1.1.1.1 1.1.1.2 { }").unwrap_err();
    assert_eq!(e, ParseError { kind: ErrorKind::ExpectedOpenBrace, found: "1.1.1.2".to_owned() });
    let e = parse("lease 1.1.1.1 { uid a;").unwrap_err();
    assert_eq!(e, ParseError { kind: ErrorKind::ExpectedCloseBrace, found: "".to_owned() });
    let e = parse("lease 1.1.1.1 {").unwrap_err();
    assert_eq!(e.kind, ErrorKind::ExpectedCloseBrace);
}

#[test]
fn comments_are_passed_over() {
    let r = parse("# The format of this file\n# is documented\n\nlease 1.1.1.1 { }\n# end").unwrap();
    assert_eq!(r.leases.len(), 1);
    assert_eq!(r.leases.get(0).ip, "1.1.1.1");
    assert_eq!(parse("").unwrap().leases.len(), 0);
    assert_eq!(parse("# nothing").unwrap().leases.len(), 0);
}

#[test]
fn parse_config_takes_tokens() {
    let tokens = vec![
        LexItem::Decl(ConfigKeyword::Comment),
        LexItem::Decl(ConfigKeyword::Lease),
        word("192.168.0.2"),
        LexItem::OpenBrace,
        LexItem::Opt(LeaseKeyword::Abandoned),
        LexItem::Endl,
        LexItem::CloseBrace,
    ];
    let r = parse_config(tokens).unwrap();
    assert_eq!(r.leases.len(), 1);
    let mut expected = Lease::for_address("192.168.0.2".to_owned());
    expected.abandoned = true;
    assert_eq!(r.leases.all(), vec![expected]);
}

fn two_windows() -> Leases {
    parse(
        "lease 10.0.0.5 {\n  starts 2 2019/01/01 10:00:00;\n  ends 2 2019/01/01 12:00:00;\n  \
         hardware ethernet aa:bb:cc:dd:ee:ff;\n  client-hostname \"old\";\n}\n\
         lease 10.0.0.5 {\n  starts 3 2019/01/02 10:00:00;\n  ends 3 2019/01/02 12:00:00;\n  \
         hardware ethernet aa:bb:cc:dd:ee:ff;\n  client-hostname \"foo\";\n}\n",
    )
    .unwrap()
    .leases
}

#[test]
fn end_to_end_two_windows() {
    let leases = two_windows();
    assert_eq!(leases.len(), 2);
    assert_eq!(leases.all().len(), 2);
    let inside_second = instant(2019, 1, 2, 11, 0, 0);
    let l = leases.active_by(LeasesField::LeasedIP, "10.0.0.5", inside_second).unwrap();
    assert_eq!(l.client_hostname, Some("foo".to_owned()));
    assert_eq!(&l, leases.get(1));
    let l = leases.active_by(LeasesField::MAC, "aa:bb:cc:dd:ee:ff", inside_second).unwrap();
    assert_eq!(l.client_hostname, Some("foo".to_owned()));
    let inside_first = instant(2019, 1, 1, 11, 0, 0);
    let l = leases.active_by(LeasesField::LeasedIP, "10.0.0.5", inside_first).unwrap();
    assert_eq!(l.client_hostname, Some("old".to_owned()));
    assert_eq!(leases.active_by_client_hostname("old", inside_first), Some(l));
    assert_eq!(leases.active_by_client_hostname("old", inside_second), None);
    let between = instant(2019, 1, 1, 18, 0, 0);
    assert_eq!(leases.active_by(LeasesField::LeasedIP, "10.0.0.5", between), None);
    assert_eq!(leases.active_by(LeasesField::LeasedIP, "10.0.0.6", inside_second), None);
    assert_eq!(leases.active_by(LeasesField::Hostname, "foo", inside_second), None);
}

fn record(ip: &str, hostname: Option<&str>, client: Option<&str>, mac: Option<&str>) -> Lease {
    let mut l = Lease::for_address(ip.to_owned());
    l.hostname = hostname.map(|s| s.to_owned());
    l.client_hostname = client.map(|s| s.to_owned());
    l.hardware = mac.map(|m| Hardware { h_type: "ethernet".to_owned(), mac: m.to_owned() });
    l
}

#[test]
fn later_record_wins_exact_lookup() {
    let mut leases = Leases::new();
    let a = record("10.0.0.1", Some("a"), None, Some("m1"));
    let b = record("10.0.0.1", Some("b"), None, Some("m2"));
    leases.push(a.clone());
    leases.push(b.clone());
    assert_eq!(leases.by_leased("10.0.0.1"), Some(b.clone()));
    assert_eq!(leases.by_leased_all("10.0.0.1"), vec![a.clone(), b.clone()]);
    assert_eq!(leases.by_leased("10.0.0.2"), None);
    assert_eq!(leases.by_leased_all("10.0.0.2"), vec![]);
    assert_eq!(leases.latest_by(LeasesField::LeasedIP, "10.0.0.1", None), Some(b.clone()));
    assert_eq!(leases.all_by(LeasesField::Hostname, "a"), vec![a.clone()]);
    assert_eq!(leases.all(), vec![a, b]);
    assert_eq!(leases.clone(), leases);
}

#[test]
fn lookups_by_each_field() {
    let mut leases = Leases::new();
    let a = record("10.0.0.1", Some("srv"), Some("cli"), Some("m1"));
    let b = record("10.0.0.2", Some("srv"), None, None);
    let c = record("10.0.0.3", None, Some("cli"), Some("m1"));
    leases.push(a.clone());
    leases.push(b.clone());
    leases.push(c.clone());
    assert_eq!(leases.by_mac("m1"), Some(c.clone()));
    assert_eq!(leases.by_mac_all("m1"), vec![a.clone(), c.clone()]);
    assert_eq!(leases.by_mac("m2"), None);
    assert_eq!(leases.by_hostname_all("srv"), vec![a.clone(), b.clone()]);
    assert_eq!(leases.by_client_hostname_all("cli"), vec![a.clone(), c.clone()]);
    assert_eq!(leases.by_client_hostname_all("srv"), vec![]);
    let t = instant(2020, 1, 1, 0, 0, 0);
    assert_eq!(leases.active_by_hostname("srv", t), Some(b.clone()));
    assert_eq!(leases.active_by_client_hostname("cli", t), Some(c.clone()));
    assert_eq!(LeasesField::MAC.value_getter(&a), Some("m1".to_owned()));
    assert_eq!(LeasesField::MAC.value_getter(&b), None);
    assert_eq!(LeasesField::LeasedIP.value_getter(&b), Some("10.0.0.2".to_owned()));
    assert_eq!(LeasesField::Hostname.value_getter(&c), None);
    assert_eq!(LeasesField::ClientHostname.value_getter(&c), Some("cli".to_owned()));
    assert!(LeasesField::Hostname.holds(&a, "srv"));
    assert!(!LeasesField::Hostname.holds(&a, "cli"));
    assert!(!LeasesField::Hostname.holds(&c, ""));
}

#[test]
fn active_window_bounds() {
    let t0 = instant(2019, 1, 1, 10, 0, 0);
    let t1 = instant(2019, 1, 1, 11, 0, 0);
    let t2 = instant(2019, 1, 1, 12, 0, 0);
    let mut l = Lease::new();
    assert!(l.is_active_at(t0));
    assert!(l.is_active_at(instant(0, 0, 0, 0, 0, 0)));
    l.dates.starts = Some(t0);
    l.dates.ends = Some(t2);
    assert!(l.is_active_at(t0));
    assert!(l.is_active_at(t1));
    assert!(l.is_active_at(t2));
    assert!(!l.is_active_at(instant(2019, 1, 1, 9, 59, 59)));
    assert!(!l.is_active_at(instant(2019, 1, 1, 12, 0, 1)));
    l.dates.ends = None;
    assert!(l.is_active_at(instant(2030, 1, 1, 0, 0, 0)));
    assert!(!l.is_active_at(instant(2018, 1, 1, 0, 0, 0)));
    l.dates.starts = None;
    l.dates.ends = Some(t2);
    assert!(l.is_active_at(instant(2018, 1, 1, 0, 0, 0)));
    assert!(!l.is_active_at(instant(2030, 1, 1, 0, 0, 0)));
    l.dates.starts = Some(t2);
    l.dates.ends = Some(t0);
    assert!(!l.is_active_at(t1));
}

#[test]
fn abandoned_records_are_never_active() {
    let t = instant(2019, 1, 1, 11, 0, 0);
    let mut leases = Leases::new();
    let older = record("10.0.0.1", Some("h"), None, None);
    let mut newer = record("10.0.0.1", Some("h"), None, None);
    newer.abandoned = true;
    leases.push(older.clone());
    leases.push(newer.clone());
    assert_eq!(leases.active_by(LeasesField::LeasedIP, "10.0.0.1", t), Some(older.clone()));
    assert_eq!(leases.active_by_hostname("h", t), Some(older));
    assert_eq!(leases.by_leased("10.0.0.1"), Some(newer.clone()));
    let mut only = Leases::new();
    only.push(newer);
    assert_eq!(only.active_by(LeasesField::LeasedIP, "10.0.0.1", t), None);
}

#[test]
fn distinct_host_names() {
    let mut leases = Leases::new();
    assert_eq!(leases.hostnames(), Vec::<String>::new());
    leases.push(record("1", Some("a"), Some("x"), None));
    leases.push(record("2", Some("b"), None, None));
    leases.push(record("3", Some("a"), Some("x"), None));
    leases.push(record("4", None, Some("y"), None));
    leases.push(record("5", Some(""), Some(""), None));
    leases.push(record("6", Some("b"), Some("y"), None));
    assert_eq!(leases.hostnames(), vec!["a".to_owned(), "b".to_owned()]);
    assert_eq!(leases.client_hostnames(), vec!["x".to_owned(), "y".to_owned()]);
    assert_eq!(leases.values_of(LeasesField::MAC), Vec::<String>::new());
    assert_eq!(leases.values_of(LeasesField::LeasedIP).len(), 6);
    let quoted = parse("lease 1.1.1.1 { hostname \"\"; client-hostname \"c\"; }").unwrap().leases;
    assert_eq!(quoted.get(0).hostname, Some("".to_owned()));
    assert_eq!(quoted.hostnames(), Vec::<String>::new());
    assert_eq!(quoted.client_hostnames(), vec!["c".to_owned()]);
}
