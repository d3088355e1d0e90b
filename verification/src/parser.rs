//! The declaration parser: from tokens to the lease log.

use vstd::prelude::*;
use vstd::string::*;
use crate::common::{end_of_input, same_text, ErrorKind, ParseError, ParseErrorView};
use crate::leases::{
    block_stops_ahead, fresh_lease, is_value, parse_block, parse_lease, Lease, LeaseView, Leases,
    LeasesMethods,
};
use crate::lex::{lex, scan, scanned_tokens_have_text, views, LexItem, Token};

verus! {

/// A keyword that starts a declaration at the top level of a lease database.
#[derive(Clone, Copy, Debug, PartialEq, Eq, Structural)]
pub enum ConfigKeyword {
    Lease,
    Comment,
}

/// The declaration keyword that the word `s` stands for: a comment marker
/// for any word that starts with `#`, the lease keyword for `lease`.
pub open spec fn declaration_of(s: Seq<char>) -> Option<ConfigKeyword> {
    if s.len() > 0 && s[0] == '#' {
        Some(ConfigKeyword::Comment)
    } else if s == "lease"@ {
        Some(ConfigKeyword::Lease)
    } else {
        None
    }
}

impl ConfigKeyword {
    /// The keyword as it is written.
    pub open spec fn text(self) -> Seq<char> {
        match self {
            ConfigKeyword::Lease => "lease"@,
            ConfigKeyword::Comment => "#"@,
        }
    }

    /// The keyword as it is written.
    pub fn to_string(&self) -> (s: String)
        ensures
            s@ == self.text(),
    {
        match self {
            ConfigKeyword::Lease => "lease".to_owned(),
            ConfigKeyword::Comment => "#".to_owned(),
        }
    }

    /// Reads a declaration keyword, or fails for a word that is none.
    pub fn from(s: &str) -> (r: Result<ConfigKeyword, ParseError>)
        ensures
            match declaration_of(s@) {
                Some(k) => r == Ok::<ConfigKeyword, ParseError>(k),
                None => r is Err && r.unwrap_err()@ == (ParseErrorView {
                    kind: ErrorKind::UnsupportedDeclaration,
                    found: s@,
                }),
            },
    {
        if s.unicode_len() > 0 && s.get_char(0) == '#' {
            Ok(ConfigKeyword::Comment)
        } else if same_text(s, "lease") {
            Ok(ConfigKeyword::Lease)
        } else {
            Err(ParseError::new(ErrorKind::UnsupportedDeclaration, s))
        }
    }
}

/// Writing a declaration keyword and reading it back gives the keyword.
pub proof fn declaration_text_reads_back(k: ConfigKeyword)
    ensures
        declaration_of(k.text()) == Some(k),
{
    reveal_strlit("lease");
    reveal_strlit("#");
}

/// What parsing a lease database gives: its lease log.
#[derive(Debug, PartialEq, Eq)]
pub struct ParserResult {
    pub leases: Leases,
}

impl Clone for ParserResult {
    fn clone(&self) -> (r: ParserResult)
        ensures
            r.leases@ == self.leases@,
    {
        ParserResult { leases: self.leases.clone() }
    }
}

/// What reading the declarations from `pos` on adds to the log `log`, or
/// the first failure. A comment is passed over. A lease declaration is the
/// keyword, the leased address (any token but a terminator or a brace), an
/// opening brace, the statements of the block and a closing brace; its
/// record goes to the end of the log. Any other token is a failure.
pub open spec fn parse_declarations(toks: Seq<Token>, pos: int, log: Seq<LeaseView>) -> Result<
    Seq<LeaseView>,
    ParseErrorView,
>
    decreases toks.len() - pos,
    via parse_declarations_decreases
{
    if pos < 0 || pos >= toks.len() {
        Ok(log)
    } else {
        match toks[pos] {
            Token::Decl(ConfigKeyword::Comment) => parse_declarations(toks, pos + 1, log),
            Token::Decl(ConfigKeyword::Lease) => {
                if pos + 1 >= toks.len() {
                    Err(end_of_input())
                } else if !is_value(toks[pos + 1]) {
                    Err(
                        ParseErrorView {
                            kind: ErrorKind::ExpectedValue,
                            found: toks[pos + 1].text(),
                        },
                    )
                } else if pos + 2 >= toks.len() {
                    Err(end_of_input())
                } else if !(toks[pos + 2] is OpenBrace) {
                    Err(
                        ParseErrorView {
                            kind: ErrorKind::ExpectedOpenBrace,
                            found: toks[pos + 2].text(),
                        },
                    )
                } else {
                    let block = parse_block(fresh_lease(toks[pos + 1].text()), toks, pos + 3);
                    match block.error {
                        Some(e) => Err(e),
                        None => {
                            if block.pos >= toks.len() {
                                Err(
                                    ParseErrorView {
                                        kind: ErrorKind::ExpectedCloseBrace,
                                        found: Seq::empty(),
                                    },
                                )
                            } else {
                                parse_declarations(toks, block.pos + 1, log.push(block.lease))
                            }
                        },
                    }
                }
            },
            other => Err(ParseErrorView { kind: ErrorKind::UnexpectedToken, found: other.text() }),
        }
    }
}

#[via_fn]
proof fn parse_declarations_decreases(toks: Seq<Token>, pos: int, log: Seq<LeaseView>) {
    if 0 <= pos && pos + 2 < toks.len() {
        block_stops_ahead(fresh_lease(toks[pos + 1].text()), toks, pos + 3);
    }
}

/// Reading declarations only adds to the log: the records that were there
/// stay first, in their order, and each record that is added has the text
/// of a token as its address, so that no address is empty where no token is.
pub proof fn log_only_grows(toks: Seq<Token>, pos: int, log: Seq<LeaseView>)
    requires
        0 <= pos,
    ensures
        match parse_declarations(toks, pos, log) {
            Ok(out) => {
                &&& log.len() <= out.len()
                &&& out.take(log.len() as int) == log
                &&& (forall|k: int| 0 <= k < toks.len() ==> (#[trigger] toks[k]).text().len() > 0)
                    && (forall|i: int| 0 <= i < log.len() ==> (#[trigger] log[i]).ip.len() > 0)
                    ==> (forall|i: int| 0 <= i < out.len() ==> (#[trigger] out[i]).ip.len() > 0)
            },
            Err(_) => true,
        },
    decreases toks.len() - pos,
{
    if pos < toks.len() {
        match toks[pos] {
            Token::Decl(ConfigKeyword::Comment) => {
                log_only_grows(toks, pos + 1, log);
            },
            Token::Decl(ConfigKeyword::Lease) => {
                if pos + 2 < toks.len() && is_value(toks[pos + 1]) && toks[pos + 2] is OpenBrace {
                    let first = fresh_lease(toks[pos + 1].text());
                    let block = parse_block(first, toks, pos + 3);
                    block_stops_ahead(first, toks, pos + 3);
                    if block.error is None && block.pos < toks.len() {
                        let grown = log.push(block.lease);
                        log_only_grows(toks, block.pos + 1, grown);
                        match parse_declarations(toks, block.pos + 1, grown) {
                            Ok(out) => {
                                assert(out.take(log.len() as int) =~= out.take(
                                    grown.len() as int,
                                ).take(log.len() as int));
                                assert(grown.take(log.len() as int) =~= log);
                                if (forall|k: int|
                                    0 <= k < toks.len() ==> (#[trigger] toks[k]).text().len() > 0)
                                    && (forall|i: int|
                                    0 <= i < log.len() ==> (#[trigger] log[i]).ip.len() > 0) {
                                    assert(toks[pos + 1].text().len() > 0);
                                    assert forall|i: int| 0 <= i < grown.len() implies (
                                    #[trigger] grown[i]).ip.len() > 0 by {
                                        if i < log.len() {
                                            assert(grown[i] == log[i]);
                                        }
                                    }
                                }
                            },
                            Err(_) => {},
                        }
                    }
                }
            },
            _ => {},
        }
    } else {
        assert(log.take(log.len() as int) =~= log);
    }
}

/// Reads the declarations of a token sequence into a lease log. The first
/// failure ends the reading, and no part of the log is returned with it.
pub fn parse_config(tokens: Vec<LexItem>) -> (r: Result<ParserResult, ParseError>)
    ensures
        match parse_declarations(views(tokens@), 0, Seq::empty()) {
            Ok(log) => r is Ok && r.unwrap().leases@ == log,
            Err(e) => r is Err && r.unwrap_err()@ == e,
        },
{
    let mut leases = Leases::new();
    let len = tokens.len();
    let mut pos: usize = 0;
    while pos < len
        invariant
            len == tokens.len(),
            parse_declarations(views(tokens@), 0, Seq::empty()) == parse_declarations(
                views(tokens@),
                pos as int,
                leases@,
            ),
        decreases len - pos,
    {
        assert(views(tokens@)[pos as int] == tokens@[pos as int]@);
        match &tokens[pos] {
            LexItem::Decl(ConfigKeyword::Comment) => {
                pos += 1;
            },
            LexItem::Decl(ConfigKeyword::Lease) => {
                if 1 >= len - pos {
                    return Err(ParseError::at_end());
                }
                assert(views(tokens@)[pos + 1] == tokens@[pos + 1]@);
                match &tokens[pos + 1] {
                    LexItem::Endl | LexItem::OpenBrace | LexItem::CloseBrace => {
                        return Err(
                            ParseError {
                                kind: ErrorKind::ExpectedValue,
                                found: tokens[pos + 1].to_string(),
                            },
                        );
                    },
                    _ => {},
                }
                if 2 >= len - pos {
                    return Err(ParseError::at_end());
                }
                assert(views(tokens@)[pos + 2] == tokens@[pos + 2]@);
                match &tokens[pos + 2] {
                    LexItem::OpenBrace => {},
                    other => {
                        return Err(
                            ParseError {
                                kind: ErrorKind::ExpectedOpenBrace,
                                found: other.to_string(),
                            },
                        );
                    },
                }
                let mut lease = Lease::for_address(tokens[pos + 1].to_string());
                let mut at: usize = pos + 3;
                match parse_lease(&mut lease, &tokens, &mut at) {
                    Ok(()) => {},
                    Err(e) => {
                        return Err(e);
                    },
                }
                if at >= len {
                    return Err(
                        ParseError { kind: ErrorKind::ExpectedCloseBrace, found: String::new() },
                    );
                }
                leases.push(lease);
                pos = at + 1;
            },
            other => {
                return Err(
                    ParseError { kind: ErrorKind::UnexpectedToken, found: other.to_string() },
                );
            },
        }
    }
    Ok(ParserResult { leases })
}

/// Parses the text of a lease database into its lease log, or fails with
/// the first failure met. Every record of the log has an address.
pub fn parse(input: &str) -> (r: Result<ParserResult, ParseError>)
    ensures
        match parse_declarations(scan(input@, 0), 0, Seq::empty()) {
            Ok(log) => r is Ok && r.unwrap().leases@ == log,
            Err(e) => r is Err && r.unwrap_err()@ == e,
        },
        r is Ok ==> forall|i: int|
            0 <= i < r.unwrap().leases@.len() ==> (#[trigger] r.unwrap().leases@[i]).ip.len() > 0,
{
    let tokens = lex(input);
    proof {
        scanned_tokens_have_text(input@, 0);
        log_only_grows(views(tokens@), 0, Seq::empty());
    }
    parse_config(tokens)
}

} // verus!
