//! Lease records, the statements of a lease block, and the lease log with
//! its lookups.

use vstd::prelude::*;
use vstd::string::*;
use crate::common::{
    end_of_input, instant_from, same_text, Date, ErrorKind, ParseError, ParseErrorView,
};
use crate::lex::{views, LexItem, Token};

verus! {

/// A keyword that starts a statement inside a lease block.
#[derive(Clone, Copy, Debug, PartialEq, Eq, Structural)]
pub enum LeaseKeyword {
    Abandoned,
    Binding,
    ClientHostname,
    Cltt,
    Ends,
    Next,
    Hardware,
    Hostname,
    Rewind,
    SetVariable,
    Starts,
    Uid,
}

/// The lease option keyword that the word `s` spells, if it spells one.
pub open spec fn keyword_of(s: Seq<char>) -> Option<LeaseKeyword> {
    if s == "abandoned"@ {
        Some(LeaseKeyword::Abandoned)
    } else if s == "binding"@ {
        Some(LeaseKeyword::Binding)
    } else if s == "client-hostname"@ {
        Some(LeaseKeyword::ClientHostname)
    } else if s == "cltt"@ {
        Some(LeaseKeyword::Cltt)
    } else if s == "ends"@ {
        Some(LeaseKeyword::Ends)
    } else if s == "hardware"@ {
        Some(LeaseKeyword::Hardware)
    } else if s == "hostname"@ {
        Some(LeaseKeyword::Hostname)
    } else if s == "next"@ {
        Some(LeaseKeyword::Next)
    } else if s == "rewind"@ {
        Some(LeaseKeyword::Rewind)
    } else if s == "set"@ {
        Some(LeaseKeyword::SetVariable)
    } else if s == "starts"@ {
        Some(LeaseKeyword::Starts)
    } else if s == "uid"@ {
        Some(LeaseKeyword::Uid)
    } else {
        None
    }
}

impl LeaseKeyword {
    /// The keyword as it is written.
    pub open spec fn text(self) -> Seq<char> {
        match self {
            LeaseKeyword::Abandoned => "abandoned"@,
            LeaseKeyword::Binding => "binding"@,
            LeaseKeyword::ClientHostname => "client-hostname"@,
            LeaseKeyword::Cltt => "cltt"@,
            LeaseKeyword::Ends => "ends"@,
            LeaseKeyword::Hardware => "hardware"@,
            LeaseKeyword::Hostname => "hostname"@,
            LeaseKeyword::Next => "next"@,
            LeaseKeyword::Rewind => "rewind"@,
            LeaseKeyword::SetVariable => "set"@,
            LeaseKeyword::Starts => "starts"@,
            LeaseKeyword::Uid => "uid"@,
        }
    }

    /// The keyword as it is written.
    pub fn to_string(&self) -> (s: String)
        ensures
            s@ == self.text(),
    {
        match self {
            LeaseKeyword::Abandoned => "abandoned".to_owned(),
            LeaseKeyword::Binding => "binding".to_owned(),
            LeaseKeyword::ClientHostname => "client-hostname".to_owned(),
            LeaseKeyword::Cltt => "cltt".to_owned(),
            LeaseKeyword::Ends => "ends".to_owned(),
            LeaseKeyword::Hardware => "hardware".to_owned(),
            LeaseKeyword::Hostname => "hostname".to_owned(),
            LeaseKeyword::Next => "next".to_owned(),
            LeaseKeyword::Rewind => "rewind".to_owned(),
            LeaseKeyword::SetVariable => "set".to_owned(),
            LeaseKeyword::Starts => "starts".to_owned(),
            LeaseKeyword::Uid => "uid".to_owned(),
        }
    }

    /// Reads a lease option keyword, or fails for a word that spells none.
    pub fn from(s: &str) -> (r: Result<LeaseKeyword, ParseError>)
        ensures
            match keyword_of(s@) {
                Some(k) => r == Ok::<LeaseKeyword, ParseError>(k),
                None => r is Err && r.unwrap_err()@ == (ParseErrorView {
                    kind: ErrorKind::UnrecognizedOption,
                    found: s@,
                }),
            },
    {
        if same_text(s, "abandoned") {
            Ok(LeaseKeyword::Abandoned)
        } else if same_text(s, "binding") {
            Ok(LeaseKeyword::Binding)
        } else if same_text(s, "client-hostname") {
            Ok(LeaseKeyword::ClientHostname)
        } else if same_text(s, "cltt") {
            Ok(LeaseKeyword::Cltt)
        } else if same_text(s, "ends") {
            Ok(LeaseKeyword::Ends)
        } else if same_text(s, "hardware") {
            Ok(LeaseKeyword::Hardware)
        } else if same_text(s, "hostname") {
            Ok(LeaseKeyword::Hostname)
        } else if same_text(s, "next") {
            Ok(LeaseKeyword::Next)
        } else if same_text(s, "rewind") {
            Ok(LeaseKeyword::Rewind)
        } else if same_text(s, "set") {
            Ok(LeaseKeyword::SetVariable)
        } else if same_text(s, "starts") {
            Ok(LeaseKeyword::Starts)
        } else if same_text(s, "uid") {
            Ok(LeaseKeyword::Uid)
        } else {
            Err(ParseError::new(ErrorKind::UnrecognizedOption, s))
        }
    }
}

/// Writing a lease option keyword and reading it back gives the keyword.
pub proof fn keyword_text_reads_back(k: LeaseKeyword)
    ensures
        keyword_of(k.text()) == Some(k),
{
    reveal_strlit("abandoned");
    reveal_strlit("binding");
    reveal_strlit("client-hostname");
    reveal_strlit("cltt");
    reveal_strlit("ends");
    reveal_strlit("hardware");
    reveal_strlit("hostname");
    reveal_strlit("next");
    reveal_strlit("rewind");
    reveal_strlit("set");
    reveal_strlit("starts");
    reveal_strlit("uid");
    assert("abandoned"@.len() == 9 && "binding"@.len() == 7 && "client-hostname"@.len() == 15);
    assert("cltt"@.len() == 4 && "ends"@.len() == 4 && "next"@.len() == 4);
    assert("hardware"@.len() == 8 && "hostname"@.len() == 8);
    assert("rewind"@.len() == 6 && "starts"@.len() == 6);
    assert("set"@.len() == 3 && "uid"@.len() == 3);
    assert("cltt"@[0] == 'c' && "ends"@[0] == 'e' && "next"@[0] == 'n');
    assert("hardware"@[1] == 'a' && "hostname"@[1] == 'o');
    assert("rewind"@[0] == 'r' && "starts"@[0] == 's');
    assert("set"@[0] == 's' && "uid"@[0] == 'u');
}

/// Every lease option keyword is written with at least one character.
pub proof fn keywords_have_text()
    ensures
        forall|k: LeaseKeyword| (#[trigger] k.text()).len() > 0,
{
    reveal_strlit("abandoned");
    reveal_strlit("binding");
    reveal_strlit("client-hostname");
    reveal_strlit("cltt");
    reveal_strlit("ends");
    reveal_strlit("hardware");
    reveal_strlit("hostname");
    reveal_strlit("next");
    reveal_strlit("rewind");
    reveal_strlit("set");
    reveal_strlit("starts");
    reveal_strlit("uid");
}

/// The first and the last instant of a lease.
#[derive(Clone, Copy, Debug, PartialEq, Eq)]
pub struct LeaseDates {
    pub starts: Option<Date>,
    pub ends: Option<Date>,
}

/// The hardware that holds a lease: its kind and its address.
#[derive(Debug, PartialEq, Eq)]
pub struct Hardware {
    pub h_type: String,
    pub mac: String,
}

/// The mathematical value of a [`Hardware`].
pub ghost struct HardwareView {
    pub h_type: Seq<char>,
    pub mac: Seq<char>,
}

impl View for Hardware {
    type V = HardwareView;

    open spec fn view(&self) -> HardwareView {
        HardwareView { h_type: self.h_type@, mac: self.mac@ }
    }
}

impl Clone for Hardware {
    fn clone(&self) -> (r: Hardware)
        ensures
            r@ == self@,
    {
        Hardware { h_type: self.h_type.clone(), mac: self.mac.clone() }
    }
}

/// One lease block of the database.
#[derive(Debug, PartialEq, Eq)]
pub struct Lease {
    pub ip: String,
    pub dates: LeaseDates,
    pub hardware: Option<Hardware>,
    pub uid: Option<String>,
    pub client_hostname: Option<String>,
    pub hostname: Option<String>,
    pub abandoned: bool,
    pub cltt: Option<Date>,
    /// The binding state: active or free where the server runs without a
    /// failover peer.
    pub binding: Option<String>,
    /// The state the lease moves to when the current binding expires.
    pub next_binding: Option<String>,
    /// The state the lease falls back to.
    pub rewind_binding: Option<String>,
}

/// The mathematical value of a [`Lease`].
pub ghost struct LeaseView {
    pub ip: Seq<char>,
    pub starts: Option<Date>,
    pub ends: Option<Date>,
    pub hardware: Option<HardwareView>,
    pub uid: Option<Seq<char>>,
    pub client_hostname: Option<Seq<char>>,
    pub hostname: Option<Seq<char>>,
    pub abandoned: bool,
    pub cltt: Option<Date>,
    pub binding: Option<Seq<char>>,
    pub next_binding: Option<Seq<char>>,
    pub rewind_binding: Option<Seq<char>>,
}

/// The characters of an optional text.
pub open spec fn text_of(o: Option<String>) -> Option<Seq<char>> {
    match o {
        Some(s) => Some(s@),
        None => None,
    }
}

impl View for Lease {
    type V = LeaseView;

    open spec fn view(&self) -> LeaseView {
        LeaseView {
            ip: self.ip@,
            starts: self.dates.starts,
            ends: self.dates.ends,
            hardware: match self.hardware {
                Some(h) => Some(h@),
                None => None,
            },
            uid: text_of(self.uid),
            client_hostname: text_of(self.client_hostname),
            hostname: text_of(self.hostname),
            abandoned: self.abandoned,
            cltt: self.cltt,
            binding: text_of(self.binding),
            next_binding: text_of(self.next_binding),
            rewind_binding: text_of(self.rewind_binding),
        }
    }
}

/// The record that a lease for the address `ip` starts from: nothing but
/// the address is set.
pub open spec fn fresh_lease(ip: Seq<char>) -> LeaseView {
    LeaseView {
        ip,
        starts: None,
        ends: None,
        hardware: None,
        uid: None,
        client_hostname: None,
        hostname: None,
        abandoned: false,
        cltt: None,
        binding: None,
        next_binding: None,
        rewind_binding: None,
    }
}

impl LeaseView {
    /// Whether the lease is in force at `when`: it has not started after
    /// `when` and has not ended before it. A bound that is absent excludes
    /// nothing.
    pub open spec fn active_at(self, when: Date) -> bool {
        &&& match self.starts {
            Some(s) => !when.before(s),
            None => true,
        }
        &&& match self.ends {
            Some(e) => !e.before(when),
            None => true,
        }
    }
}

/// Copies an optional text.
fn copy_text(o: &Option<String>) -> (r: Option<String>)
    ensures
        text_of(r) == text_of(*o),
{
    match o {
        Some(s) => Some(s.clone()),
        None => None,
    }
}

impl Clone for Lease {
    fn clone(&self) -> (r: Lease)
        ensures
            r@ == self@,
    {
        Lease {
            ip: self.ip.clone(),
            dates: self.dates,
            hardware: match &self.hardware {
                Some(h) => Some(h.clone()),
                None => None,
            },
            uid: copy_text(&self.uid),
            client_hostname: copy_text(&self.client_hostname),
            hostname: copy_text(&self.hostname),
            abandoned: self.abandoned,
            cltt: self.cltt,
            binding: copy_text(&self.binding),
            next_binding: copy_text(&self.next_binding),
            rewind_binding: copy_text(&self.rewind_binding),
        }
    }
}

impl Lease {
    /// A record for the address `localhost` with nothing else set.
    pub fn new() -> (l: Lease)
        ensures
            l@ == fresh_lease("localhost"@),
    {
        Lease::for_address("localhost".to_owned())
    }

    /// A record for the address `ip` with nothing else set.
    pub fn for_address(ip: String) -> (l: Lease)
        ensures
            l@ == fresh_lease(ip@),
    {
        Lease {
            ip,
            dates: LeaseDates { starts: None, ends: None },
            hardware: None,
            uid: None,
            client_hostname: None,
            hostname: None,
            abandoned: false,
            cltt: None,
            binding: None,
            next_binding: None,
            rewind_binding: None,
        }
    }

    /// Decides whether the lease is in force at `when`.
    pub fn is_active_at(&self, when: Date) -> (r: bool)
        ensures
            r == self@.active_at(when),
    {
        if let Some(s) = self.dates.starts {
            if when.is_before(&s) {
                return false;
            }
        }
        if let Some(e) = self.dates.ends {
            if e.is_before(&when) {
                return false;
            }
        }
        true
    }
}

/// A lease with a start and an end is in force at every instant from the
/// start to the end, and at none before the start or after the end; a lease
/// without either is in force at every instant.
pub proof fn active_window(l: LeaseView, start: Date, end: Date, when: Date)
    ensures
        l.starts == Some(start) && l.ends == Some(end) ==> (l.active_at(when) <==> !when.before(
            start,
        ) && !end.before(when)),
        l.starts == Some(start) && when.before(start) ==> !l.active_at(when),
        l.ends == Some(end) && end.before(when) ==> !l.active_at(when),
        l.starts is None && l.ends is None ==> l.active_at(when),
{
}

/// The text `s` without its double quotes, wherever they stand.
pub open spec fn unquote(s: Seq<char>) -> Seq<char>
    decreases s.len(),
{
    if s.len() == 0 {
        s
    } else if s.last() == '"' {
        unquote(s.drop_last())
    } else {
        unquote(s.drop_last()).push(s.last())
    }
}

/// Removing the quotes of two texts in a row removes them from each.
pub proof fn unquote_concat(a: Seq<char>, b: Seq<char>)
    ensures
        unquote(a + b) == unquote(a) + unquote(b),
    decreases b.len(),
{
    if b.len() == 0 {
        assert(a + b =~= a);
        assert(unquote(a) + unquote(b) =~= unquote(a));
    } else {
        assert((a + b).drop_last() =~= a + b.drop_last());
        unquote_concat(a, b.drop_last());
        assert(unquote(a + b) =~= unquote(a) + unquote(b));
    }
}

/// A text without double quotes is left as it is.
pub proof fn unquote_plain(s: Seq<char>)
    requires
        forall|i: int| 0 <= i < s.len() ==> s[i] != '"',
    ensures
        unquote(s) == s,
    decreases s.len(),
{
    if s.len() > 0 {
        unquote_plain(s.drop_last());
        assert(s.drop_last().push(s.last()) =~= s);
    }
}

/// A host name wrapped in double quotes is stored as the same name without
/// them is; where the name itself holds no quote, that is the name.
pub proof fn quoted_name_stores_as_plain(name: Seq<char>)
    ensures
        unquote(seq!['"'] + name + seq!['"']) == unquote(name),
        (forall|i: int| 0 <= i < name.len() ==> name[i] != '"') ==> unquote(
            seq!['"'] + name + seq!['"'],
        ) == name,
{
    let q = seq!['"'];
    assert(unquote(q) =~= Seq::<char>::empty()) by {
        assert(q.drop_last() =~= Seq::<char>::empty());
        assert(unquote(q.drop_last()) =~= Seq::<char>::empty());
    }
    unquote_concat(q + name, q);
    unquote_concat(q, name);
    assert(unquote(q + name + q) =~= unquote(name));
    if forall|i: int| 0 <= i < name.len() ==> name[i] != '"' {
        unquote_plain(name);
    }
}

/// Removes every double quote from a host name.
pub fn unquote_hostname(hn: String) -> (r: String)
    ensures
        r@ == unquote(hn@),
{
    let s = hn.as_str();
    let len = s.unicode_len();
    let mut out = String::new();
    let mut i: usize = 0;
    assert(s@.take(0) =~= Seq::<char>::empty());
    while i < len
        invariant
            len == s@.len(),
            i <= len,
            out@ == unquote(s@.take(i as int)),
        decreases len - i,
    {
        let c = s.get_char(i);
        proof {
            assert(s@.take(i + 1).drop_last() =~= s@.take(i as int));
            assert(s@.take(i + 1).last() == c);
        }
        if c != '"' {
            let piece = s.substring_char(i, i + 1);
            assert(piece@ =~= seq![c]);
            out.append(piece);
            assert(out@ =~= unquote(s@.take(i as int)).push(c));
        }
        i += 1;
    }
    assert(s@.take(len as int) =~= s@);
    out
}

/// Whether a statement that starts with `kw` states an instant.
pub open spec fn states_instant(kw: LeaseKeyword) -> bool {
    kw == LeaseKeyword::Starts || kw == LeaseKeyword::Ends || kw == LeaseKeyword::Cltt
}

/// How many tokens stand between the keyword of a statement and its
/// terminator, an optional time zone not counted.
pub open spec fn value_count(kw: LeaseKeyword) -> int {
    match kw {
        LeaseKeyword::Starts | LeaseKeyword::Ends | LeaseKeyword::Cltt => 3,
        LeaseKeyword::Hardware => 2,
        LeaseKeyword::Uid | LeaseKeyword::ClientHostname | LeaseKeyword::Hostname => 1,
        LeaseKeyword::Abandoned => 0,
        LeaseKeyword::Binding => 2,
        LeaseKeyword::Next | LeaseKeyword::Rewind => 3,
        LeaseKeyword::SetVariable => 1,
    }
}

/// Whether a token can stand as a value of a statement: any token but the
/// terminator and the braces. A keyword can, and stands for its text.
pub open spec fn is_value(t: Token) -> bool {
    !(t is Endl) && !(t is OpenBrace) && !(t is CloseBrace)
}

/// What is wrong with the values of the statement at `pos`, from the `k`-th
/// of its `n` values on, if anything: the first of them that is missing at
/// the end of the input, or that is no value.
pub open spec fn values_error(toks: Seq<Token>, pos: int, k: int, n: int) -> Option<
    ParseErrorView,
>
    decreases n - k + 1,
{
    if k > n {
        None
    } else if pos + k >= toks.len() {
        Some(end_of_input())
    } else if !is_value(toks[pos + k]) {
        Some(ParseErrorView { kind: ErrorKind::ExpectedValue, found: toks[pos + k].text() })
    } else {
        values_error(toks, pos, k + 1, n)
    }
}

/// Where the terminator of the statement at `pos` must stand: behind the
/// statement's values, and behind one more token where the statement states
/// an instant and a value follows its three (a time zone).
pub open spec fn terminator_position(kw: LeaseKeyword, toks: Seq<Token>, pos: int) -> int {
    let t = pos + value_count(kw) + 1;
    if states_instant(kw) && 0 <= t < toks.len() && is_value(toks[t]) {
        t + 1
    } else {
        t
    }
}

/// What is wrong with the shape of the statement at `pos`, if anything: one
/// of its values is missing or is no value, the input ends before its
/// terminator, or another token stands where the terminator must.
pub open spec fn shape_error(kw: LeaseKeyword, toks: Seq<Token>, pos: int) -> Option<
    ParseErrorView,
> {
    let t = terminator_position(kw, toks, pos);
    if pos < 0 {
        Some(end_of_input())
    } else if values_error(toks, pos, 1, value_count(kw)) is Some {
        values_error(toks, pos, 1, value_count(kw))
    } else if t >= toks.len() {
        Some(end_of_input())
    } else if !(toks[t] is Endl) {
        Some(ParseErrorView { kind: ErrorKind::ExpectedTerminator, found: toks[t].text() })
    } else {
        None
    }
}

/// The record after the well-shaped statement at `pos` has been stored in
/// `l`, or the failure of an instant that cannot be built.
pub open spec fn store(l: LeaseView, kw: LeaseKeyword, toks: Seq<Token>, pos: int) -> Result<
    LeaseView,
    ParseErrorView,
> {
    let first = toks[pos + 1].text();
    let second = toks[pos + 2].text();
    let third = toks[pos + 3].text();
    match kw {
        LeaseKeyword::Starts => match instant_from(first, second, third) {
            Ok(d) => Ok(LeaseView { starts: Some(d), ..l }),
            Err(e) => Err(e),
        },
        LeaseKeyword::Ends => match instant_from(first, second, third) {
            Ok(d) => Ok(LeaseView { ends: Some(d), ..l }),
            Err(e) => Err(e),
        },
        LeaseKeyword::Cltt => match instant_from(first, second, third) {
            Ok(d) => Ok(LeaseView { cltt: Some(d), ..l }),
            Err(e) => Err(e),
        },
        LeaseKeyword::Hardware => Ok(
            LeaseView { hardware: Some(HardwareView { h_type: first, mac: second }), ..l },
        ),
        LeaseKeyword::Uid => Ok(LeaseView { uid: Some(first), ..l }),
        LeaseKeyword::ClientHostname => Ok(LeaseView { client_hostname: Some(unquote(first)), ..l }),
        LeaseKeyword::Hostname => Ok(LeaseView { hostname: Some(unquote(first)), ..l }),
        LeaseKeyword::Abandoned => Ok(LeaseView { abandoned: true, ..l }),
        LeaseKeyword::Binding => Ok(LeaseView { binding: Some(second), ..l }),
        LeaseKeyword::Next => Ok(LeaseView { next_binding: Some(third), ..l }),
        LeaseKeyword::Rewind => Ok(LeaseView { rewind_binding: Some(third), ..l }),
        LeaseKeyword::SetVariable => Ok(l),
    }
}

/// What reading the statement that starts with `kw` at `pos` gives: the
/// record with the statement stored and the position of the statement's
/// terminator, or the first failure.
pub open spec fn statement(l: LeaseView, kw: LeaseKeyword, toks: Seq<Token>, pos: int) -> Result<
    (LeaseView, int),
    ParseErrorView,
> {
    match shape_error(kw, toks, pos) {
        Some(e) => Err(e),
        None => match store(l, kw, toks, pos) {
            Ok(l2) => Ok((l2, terminator_position(kw, toks, pos))),
            Err(e) => Err(e),
        },
    }
}

/// Where reading a lease block stopped: the record as far as it was read,
/// the position of the token that stopped it, and the failure if it was one.
pub ghost struct BlockOutcome {
    pub lease: LeaseView,
    pub pos: int,
    pub error: Option<ParseErrorView>,
}

/// What reading the statements of a lease block from `pos` on gives. Each
/// statement is stored in turn. Reading stops without failure in front of a
/// closing brace or at the end of the input. It stops with a failure at the
/// start of the first statement that is malformed, the record holding the
/// statements before it, and at the first token that starts no statement.
pub open spec fn parse_block(l: LeaseView, toks: Seq<Token>, pos: int) -> BlockOutcome
    decreases toks.len() - pos,
{
    if pos < 0 || pos >= toks.len() {
        BlockOutcome { lease: l, pos, error: None }
    } else {
        match toks[pos] {
            Token::CloseBrace => BlockOutcome { lease: l, pos, error: None },
            Token::Opt(kw) => match statement(l, kw, toks, pos) {
                Ok((l2, t)) => parse_block(l2, toks, t + 1),
                Err(e) => BlockOutcome { lease: l, pos, error: Some(e) },
            },
            other => BlockOutcome {
                lease: l,
                pos,
                error: Some(
                    ParseErrorView { kind: ErrorKind::UnexpectedOption, found: other.text() },
                ),
            },
        }
    }
}

/// Reading a block never moves backwards and keeps the address of the
/// record; where it stops without failure before the end of the input, it
/// stops in front of a closing brace.
pub proof fn block_stops_ahead(l: LeaseView, toks: Seq<Token>, pos: int)
    requires
        0 <= pos,
    ensures
        parse_block(l, toks, pos).pos >= pos,
        parse_block(l, toks, pos).lease.ip == l.ip,
        parse_block(l, toks, pos).error is None && parse_block(l, toks, pos).pos < toks.len()
            ==> toks[parse_block(l, toks, pos).pos] is CloseBrace,
    decreases toks.len() - pos,
{
    if pos < toks.len() {
        match toks[pos] {
            Token::Opt(kw) => match statement(l, kw, toks, pos) {
                Ok((l2, t)) => {
                    block_stops_ahead(l2, toks, t + 1);
                },
                Err(_) => {},
            },
            _ => {},
        }
    }
}

/// Whether reading the block from `pos` on comes to an `abandoned`
/// statement and reads it.
pub open spec fn reads_abandoned(l: LeaseView, toks: Seq<Token>, pos: int) -> bool
    decreases toks.len() - pos,
{
    if pos < 0 || pos >= toks.len() {
        false
    } else {
        match toks[pos] {
            Token::Opt(kw) => match statement(l, kw, toks, pos) {
                Ok((l2, t)) => kw == LeaseKeyword::Abandoned || reads_abandoned(l2, toks, t + 1),
                Err(_) => false,
            },
            _ => false,
        }
    }
}

/// No statement clears the abandoned flag: a record that is abandoned
/// before a block is read is abandoned after it.
pub proof fn abandoned_flag_is_kept(l: LeaseView, toks: Seq<Token>, pos: int)
    requires
        l.abandoned,
    ensures
        parse_block(l, toks, pos).lease.abandoned,
    decreases toks.len() - pos,
{
    if 0 <= pos < toks.len() {
        match toks[pos] {
            Token::Opt(kw) => match statement(l, kw, toks, pos) {
                Ok((l2, t)) => {
                    abandoned_flag_is_kept(l2, toks, t + 1);
                },
                Err(_) => {},
            },
            _ => {},
        }
    }
}

/// A block with an `abandoned` statement gives an abandoned record,
/// whatever the other statements of the block set.
pub proof fn abandoned_statement_sets_flag(l: LeaseView, toks: Seq<Token>, pos: int)
    requires
        reads_abandoned(l, toks, pos),
    ensures
        parse_block(l, toks, pos).lease.abandoned,
    decreases toks.len() - pos,
{
    match toks[pos] {
        Token::Opt(kw) => match statement(l, kw, toks, pos) {
            Ok((l2, t)) => {
                if kw == LeaseKeyword::Abandoned {
                    abandoned_flag_is_kept(l2, toks, t + 1);
                } else {
                    abandoned_statement_sets_flag(l2, toks, t + 1);
                }
            },
            Err(_) => {},
        },
        _ => {},
    }
}

/// A statement that states an instant gives the same record with a time
/// zone before its terminator as without one, and fails alike where a value
/// is no value or the instant cannot be built: the time zone is read and
/// dropped. `plain` holds the statement without a time zone, `zoned` the
/// same three values followed by one.
pub proof fn time_zone_is_discarded(
    l: LeaseView,
    kw: LeaseKeyword,
    plain: Seq<Token>,
    zoned: Seq<Token>,
    pos: int,
)
    requires
        states_instant(kw),
        0 <= pos,
        pos + 4 < plain.len(),
        pos + 5 < zoned.len(),
        plain[pos + 1] == zoned[pos + 1],
        plain[pos + 2] == zoned[pos + 2],
        plain[pos + 3] == zoned[pos + 3],
        plain[pos + 4] is Endl,
        is_value(zoned[pos + 4]),
        zoned[pos + 5] is Endl,
    ensures
        match statement(l, kw, plain, pos) {
            Ok((l2, t)) => t == pos + 4 && statement(l, kw, zoned, pos) == Ok::<
                (LeaseView, int),
                ParseErrorView,
            >((l2, pos + 5)),
            Err(e) => statement(l, kw, zoned, pos) == Err::<(LeaseView, int), ParseErrorView>(e),
        },
{
    reveal_with_fuel(values_error, 5);
}

/// The text of the token at `p`.
fn text_at(tokens: &Vec<LexItem>, p: usize) -> (s: String)
    requires
        p < tokens.len(),
    ensures
        s@ == views(tokens@)[p as int].text(),
{
    tokens[p].to_string()
}

/// Builds the instant that the three tokens behind `pos` state.
fn instant_at(tokens: &Vec<LexItem>, pos: usize) -> (r: Result<Date, ParseError>)
    requires
        pos + 3 < tokens.len(),
    ensures
        match instant_from(
            views(tokens@)[pos + 1].text(),
            views(tokens@)[pos + 2].text(),
            views(tokens@)[pos + 3].text(),
        ) {
            Ok(d) => r == Ok::<Date, ParseError>(d),
            Err(e) => r is Err && r.unwrap_err()@ == e,
        },
{
    let weekday = text_at(tokens, pos + 1);
    let date = text_at(tokens, pos + 2);
    let time = text_at(tokens, pos + 3);
    Date::from(weekday.as_str(), date.as_str(), time.as_str())
}

/// Finds the terminator of the statement that starts with `kw` at `pos`.
fn find_terminator(kw: LeaseKeyword, tokens: &Vec<LexItem>, pos: usize) -> (r: Result<
    usize,
    ParseError,
>)
    ensures
        match shape_error(kw, views(tokens@), pos as int) {
            Some(e) => r is Err && r.unwrap_err()@ == e,
            None => r is Ok && r.unwrap() == terminator_position(kw, views(tokens@), pos as int)
                && r.unwrap() < tokens.len() && pos + value_count(kw) < r.unwrap(),
        },
{
    let len = tokens.len();
    let (count, instant): (usize, bool) = match kw {
        LeaseKeyword::Starts | LeaseKeyword::Ends | LeaseKeyword::Cltt => (3, true),
        LeaseKeyword::Hardware => (2, false),
        LeaseKeyword::Uid | LeaseKeyword::ClientHostname | LeaseKeyword::Hostname => (1, false),
        LeaseKeyword::Abandoned => (0, false),
        LeaseKeyword::Binding => (2, false),
        LeaseKeyword::Next | LeaseKeyword::Rewind => (3, false),
        LeaseKeyword::SetVariable => (1, false),
    };
    if pos >= len {
        return Err(ParseError::at_end());
    }
    let mut k: usize = 1;
    while k <= count
        invariant
            len == tokens.len(),
            pos < len,
            count == value_count(kw),
            1 <= k <= count + 1,
            pos + k <= len,
            values_error(views(tokens@), pos as int, 1, count as int) == values_error(
                views(tokens@),
                pos as int,
                k as int,
                count as int,
            ),
        decreases count + 1 - k,
    {
        if k >= len - pos {
            return Err(ParseError::at_end());
        }
        assert(views(tokens@)[pos + k] == tokens@[pos + k]@);
        match &tokens[pos + k] {
            LexItem::Endl | LexItem::OpenBrace | LexItem::CloseBrace => {
                return Err(
                    ParseError {
                        kind: ErrorKind::ExpectedValue,
                        found: tokens[pos + k].to_string(),
                    },
                );
            },
            _ => {},
        }
        k += 1;
    }
    let mut t: usize = pos + count + 1;
    if t >= len {
        return Err(ParseError::at_end());
    }
    assert(views(tokens@)[t as int] == tokens@[t as int]@);
    if instant {
        match &tokens[t] {
            LexItem::Endl | LexItem::OpenBrace | LexItem::CloseBrace => {},
            _ => {
                t = t + 1;
                if t >= len {
                    return Err(ParseError::at_end());
                }
            },
        }
    }
    assert(views(tokens@)[t as int] == tokens@[t as int]@);
    match &tokens[t] {
        LexItem::Endl => Ok(t),
        other => Err(ParseError { kind: ErrorKind::ExpectedTerminator, found: other.to_string() }),
    }
}

/// Reads the statement that starts with `kw` at `pos` into `lease` and
/// returns the position of its terminator. On failure the record is left as
/// it was.
pub fn parse_statement(lease: &mut Lease, kw: LeaseKeyword, tokens: &Vec<LexItem>, pos: usize) -> (r:
    Result<usize, ParseError>)
    ensures
        match statement(old(lease)@, kw, views(tokens@), pos as int) {
            Ok((l, t)) => r is Ok && r.unwrap() == t && t < tokens.len() && final(lease)@ == l,
            Err(e) => r is Err && r.unwrap_err()@ == e && final(lease)@ == old(lease)@,
        },
{
    let t = match find_terminator(kw, tokens, pos) {
        Ok(t) => t,
        Err(e) => { return Err(e); },
    };
    match kw {
        LeaseKeyword::Starts => {
            match instant_at(tokens, pos) {
                Ok(d) => { lease.dates.starts = Some(d); },
                Err(e) => { return Err(e); },
            }
        },
        LeaseKeyword::Ends => {
            match instant_at(tokens, pos) {
                Ok(d) => { lease.dates.ends = Some(d); },
                Err(e) => { return Err(e); },
            }
        },
        LeaseKeyword::Cltt => {
            match instant_at(tokens, pos) {
                Ok(d) => { lease.cltt = Some(d); },
                Err(e) => { return Err(e); },
            }
        },
        LeaseKeyword::Hardware => {
            let h_type = text_at(tokens, pos + 1);
            let mac = text_at(tokens, pos + 2);
            lease.hardware = Some(Hardware { h_type, mac });
        },
        LeaseKeyword::Uid => {
            lease.uid = Some(text_at(tokens, pos + 1));
        },
        LeaseKeyword::ClientHostname => {
            lease.client_hostname = Some(unquote_hostname(text_at(tokens, pos + 1)));
        },
        LeaseKeyword::Hostname => {
            lease.hostname = Some(unquote_hostname(text_at(tokens, pos + 1)));
        },
        LeaseKeyword::Abandoned => {
            lease.abandoned = true;
        },
        LeaseKeyword::Binding => {
            lease.binding = Some(text_at(tokens, pos + 2));
        },
        LeaseKeyword::Next => {
            lease.next_binding = Some(text_at(tokens, pos + 3));
        },
        LeaseKeyword::Rewind => {
            lease.rewind_binding = Some(text_at(tokens, pos + 3));
        },
        LeaseKeyword::SetVariable => {},
    }
    Ok(t)
}

/// Reads the statements of a lease block into `lease`, from the token at
/// `pos` on, and leaves `pos` at the token that stopped the reading: the
/// closing brace, which is not consumed, the end of the input, or the start
/// of the statement that failed.
pub fn parse_lease(lease: &mut Lease, tokens: &Vec<LexItem>, pos: &mut usize) -> (r: Result<
    (),
    ParseError,
>)
    ensures
        final(lease)@ == parse_block(old(lease)@, views(tokens@), *old(pos) as int).lease,
        *final(pos) == parse_block(old(lease)@, views(tokens@), *old(pos) as int).pos,
        match parse_block(old(lease)@, views(tokens@), *old(pos) as int).error {
            None => r is Ok,
            Some(e) => r is Err && r.unwrap_err()@ == e,
        },
        r is Ok && *final(pos) < tokens.len() ==> views(tokens@)[*final(pos) as int]
            is CloseBrace,
        *old(pos) <= *final(pos),
{
    while *pos < tokens.len()
        invariant
            parse_block(old(lease)@, views(tokens@), *old(pos) as int) == parse_block(
                lease@,
                views(tokens@),
                *pos as int,
            ),
            *old(pos) <= *pos,
        decreases tokens.len() - *pos,
    {
        assert(views(tokens@)[*pos as int] == tokens@[*pos as int]@);
        match &tokens[*pos] {
            LexItem::CloseBrace => {
                return Ok(());
            },
            LexItem::Opt(kw) => {
                match parse_statement(lease, *kw, tokens, *pos) {
                    Ok(t) => {
                        *pos = t + 1;
                    },
                    Err(e) => {
                        return Err(e);
                    },
                }
            },
            other => {
                return Err(
                    ParseError { kind: ErrorKind::UnexpectedOption, found: other.to_string() },
                );
            },
        }
    }
    Ok(())
}

/// The field of a lease that a lookup goes by.
#[derive(Clone, Copy, Debug, PartialEq, Eq, Structural)]
pub enum LeasesField {
    ClientHostname,
    Hostname,
    LeasedIP,
    MAC,
}

/// The value that the record `l` has in the field `f`, if it has one.
pub open spec fn field_value(l: LeaseView, f: LeasesField) -> Option<Seq<char>> {
    match f {
        LeasesField::ClientHostname => l.client_hostname,
        LeasesField::Hostname => l.hostname,
        LeasesField::LeasedIP => Some(l.ip),
        LeasesField::MAC => match l.hardware {
            Some(h) => Some(h.mac),
            None => None,
        },
    }
}

/// Whether a lookup for the value `v` in the field `f` accepts the record
/// `l`. A lookup at an instant accepts only records that are not abandoned
/// and are in force at that instant.
pub open spec fn qualifies(l: LeaseView, f: LeasesField, v: Seq<char>, at: Option<Date>) -> bool {
    &&& field_value(l, f) == Some(v)
    &&& match at {
        Some(when) => !l.abandoned && l.active_at(when),
        None => true,
    }
}

/// The record that a lookup scanning the log from its end finds first.
pub open spec fn latest(log: Seq<LeaseView>, f: LeasesField, v: Seq<char>, at: Option<Date>)
    -> Option<LeaseView>
    decreases log.len(),
{
    if log.len() == 0 {
        None
    } else if qualifies(log.last(), f, v, at) {
        Some(log.last())
    } else {
        latest(log.drop_last(), f, v, at)
    }
}

/// The records with the value `v` in the field `f`, in the order of the log.
pub open spec fn all_matches(log: Seq<LeaseView>, f: LeasesField, v: Seq<char>) -> Seq<LeaseView>
    decreases log.len(),
{
    if log.len() == 0 {
        log
    } else if qualifies(log.last(), f, v, None) {
        all_matches(log.drop_last(), f, v).push(log.last())
    } else {
        all_matches(log.drop_last(), f, v)
    }
}

/// Whether `v` is a name to collect from the log: it is not empty, and
/// some record has it in the field `f`.
pub open spec fn occurs(log: Seq<LeaseView>, f: LeasesField, v: Seq<char>) -> bool {
    v.len() > 0 && exists|i: int|
        0 <= i < log.len() && field_value(#[trigger] log[i], f) == Some(v)
}

/// The values of a sequence of records, in order.
pub open spec fn lease_views(items: Seq<Lease>) -> Seq<LeaseView> {
    Seq::new(items.len(), |i: int| items[i]@)
}

/// The characters of each text of a sequence, in order.
pub open spec fn texts(items: Seq<String>) -> Seq<Seq<char>> {
    Seq::new(items.len(), |i: int| items[i]@)
}

/// The value of an optional record.
pub open spec fn found(o: Option<Lease>) -> Option<LeaseView> {
    match o {
        Some(l) => Some(l@),
        None => None,
    }
}

/// What a lookup finds is the last record of the log that it accepts: no
/// record behind it is accepted, and nothing is found only where no record
/// is accepted.
pub proof fn latest_is_last_accepted(
    log: Seq<LeaseView>,
    f: LeasesField,
    v: Seq<char>,
    at: Option<Date>,
)
    ensures
        match latest(log, f, v, at) {
            Some(l) => exists|i: int|
                0 <= i < log.len() && #[trigger] log[i] == l && qualifies(log[i], f, v, at) && (
                forall|j: int| i < j < log.len() ==> !qualifies(#[trigger] log[j], f, v, at)),
            None => forall|i: int| 0 <= i < log.len() ==> !qualifies(#[trigger] log[i], f, v, at),
        },
    decreases log.len(),
{
    if log.len() > 0 {
        let last = log.len() - 1;
        if qualifies(log.last(), f, v, at) {
            assert(log[last] == log.last());
        } else {
            let rest = log.drop_last();
            latest_is_last_accepted(rest, f, v, at);
            match latest(rest, f, v, at) {
                Some(l) => {
                    let i = choose|i: int|
                        0 <= i < rest.len() && #[trigger] rest[i] == l && qualifies(
                            rest[i],
                            f,
                            v,
                            at,
                        ) && (forall|j: int|
                            i < j < rest.len() ==> !qualifies(#[trigger] rest[j], f, v, at));
                    assert(log[i] == rest[i]);
                    assert forall|j: int| i < j < log.len() implies !qualifies(
                        #[trigger] log[j],
                        f,
                        v,
                        at,
                    ) by {
                        if j < last {
                            assert(log[j] == rest[j]);
                        }
                    }
                },
                None => {
                    assert forall|i: int| 0 <= i < log.len() implies !qualifies(
                        #[trigger] log[i],
                        f,
                        v,
                        at,
                    ) by {
                        if i < last {
                            assert(log[i] == rest[i]);
                        }
                    }
                },
            }
        }
    }
}

/// Of two records with the same value in a field, added to a log one after
/// the other, a lookup by that field finds the second, and the lookup for
/// all matches ends with the first and then the second.
pub proof fn later_record_wins(
    log: Seq<LeaseView>,
    a: LeaseView,
    b: LeaseView,
    f: LeasesField,
    v: Seq<char>,
)
    requires
        field_value(a, f) == Some(v),
        field_value(b, f) == Some(v),
    ensures
        latest(log.push(a).push(b), f, v, None) == Some(b),
        all_matches(log.push(a).push(b), f, v) == all_matches(log, f, v).push(a).push(b),
        all_matches(seq![a, b], f, v) == seq![a, b],
{
    let ab = log.push(a).push(b);
    assert(ab.last() == b);
    assert(ab.drop_last() =~= log.push(a));
    assert(log.push(a).last() == a);
    assert(log.push(a).drop_last() =~= log);
    assert(all_matches(log.push(a), f, v) == all_matches(log, f, v).push(a));
    assert(all_matches(ab, f, v) == all_matches(log.push(a), f, v).push(b));
    let none = Seq::<LeaseView>::empty();
    assert(seq![a, b] =~= none.push(a).push(b));
    assert(none.push(a).push(b).drop_last() =~= none.push(a));
    assert(none.push(a).drop_last() =~= none);
    assert(all_matches(none, f, v) =~= none);
    assert(none.push(a).last() == a);
    assert(none.push(a).push(b).last() == b);
    assert(all_matches(none.push(a), f, v) == none.push(a));
    assert(all_matches(none.push(a).push(b), f, v) == none.push(a).push(b));
}

/// A lookup at an instant never returns an abandoned record, nor one that
/// is not in force at the instant; where every record with the value is
/// abandoned, it finds nothing.
pub proof fn abandoned_is_never_active(
    log: Seq<LeaseView>,
    f: LeasesField,
    v: Seq<char>,
    when: Date,
)
    ensures
        match latest(log, f, v, Some(when)) {
            Some(l) => !l.abandoned && l.active_at(when) && field_value(l, f) == Some(v),
            None => true,
        },
        (forall|i: int|
            0 <= i < log.len() && field_value(#[trigger] log[i], f) == Some(v)
                ==> log[i].abandoned) ==> latest(log, f, v, Some(when)) is None,
{
    latest_is_last_accepted(log, f, v, Some(when));
}

impl LeasesField {
    /// Reads this field from a record.
    pub fn value_getter(&self, l: &Lease) -> (r: Option<String>)
        ensures
            text_of(r) == field_value(l@, *self),
    {
        match self {
            LeasesField::ClientHostname => copy_text(&l.client_hostname),
            LeasesField::Hostname => copy_text(&l.hostname),
            LeasesField::LeasedIP => Some(l.ip.clone()),
            LeasesField::MAC => match &l.hardware {
                Some(h) => Some(h.mac.clone()),
                None => None,
            },
        }
    }

    /// Decides whether a record has the value `v` in this field.
    pub fn holds(&self, l: &Lease, v: &str) -> (r: bool)
        ensures
            r == (field_value(l@, *self) == Some(v@)),
    {
        match self.value_getter(l) {
            Some(s) => same_text(s.as_str(), v),
            None => false,
        }
    }
}

/// The lease log: every lease block of a database, in the order in which
/// the blocks stand there. A later record for an address supersedes the
/// earlier ones; nothing is merged or dropped when a record is added.
#[derive(Debug, PartialEq, Eq)]
pub struct Leases(Vec<Lease>);

impl View for Leases {
    type V = Seq<LeaseView>;

    closed spec fn view(&self) -> Seq<LeaseView> {
        lease_views(self.0@)
    }
}

impl Clone for Leases {
    fn clone(&self) -> (r: Leases)
        ensures
            r@ == self@,
    {
        let items = self.all();
        proof {
            assert(lease_views(items@) =~= self@);
        }
        Leases(items)
    }
}

/// The operations of the lease log.
pub trait LeasesMethods {
    fn all(&self) -> Vec<Lease>;

    fn active_by(&self, field_name: LeasesField, value: &str, active_at: Date) -> Option<Lease>;

    fn by_leased(&self, ip: &str) -> Option<Lease>;

    fn by_leased_all(&self, ip: &str) -> Vec<Lease>;

    fn by_mac(&self, mac: &str) -> Option<Lease>;

    fn by_mac_all(&self, mac: &str) -> Vec<Lease>;

    fn active_by_hostname(&self, hostname: &str, active_at: Date) -> Option<Lease>;

    fn by_hostname_all(&self, hostname: &str) -> Vec<Lease>;

    fn active_by_client_hostname(&self, hostname: &str, active_at: Date) -> Option<Lease>;

    fn by_client_hostname_all(&self, hostname: &str) -> Vec<Lease>;

    fn new() -> Leases;

    fn push(&mut self, l: Lease);

    fn hostnames(&self) -> Vec<String>;

    fn client_hostnames(&self) -> Vec<String>;
}

/// Decides whether `v` is one of the texts of `items`.
fn is_listed(items: &Vec<String>, v: &String) -> (r: bool)
    ensures
        r == texts(items@).contains(v@),
{
    let mut k: usize = 0;
    while k < items.len()
        invariant
            k <= items.len(),
            forall|j: int| 0 <= j < k ==> texts(items@)[j] != v@,
        decreases items.len() - k,
    {
        if items[k] == *v {
            assert(texts(items@)[k as int] == v@);
            return true;
        }
        k += 1;
    }
    false
}

impl Leases {
    /// The number of records in the log.
    pub fn len(&self) -> (n: usize)
        ensures
            n == self@.len(),
    {
        self.0.len()
    }

    /// The record at position `i` of the log.
    pub fn get(&self, i: usize) -> (l: &Lease)
        requires
            i < self@.len(),
        ensures
            l@ == self@[i as int],
    {
        &self.0[i]
    }

    /// Scans the log from its end and returns the first record with the
    /// value `v` in the field `f`; with an instant given, the first such
    /// record that is not abandoned and is in force at that instant.
    pub fn latest_by(&self, f: LeasesField, v: &str, at: Option<Date>) -> (r: Option<Lease>)
        ensures
            found(r) == latest(self@, f, v@, at),
    {
        let mut i: usize = self.0.len();
        assert(self@.take(i as int) =~= self@);
        while i > 0
            invariant
                i <= self.0.len(),
                latest(self@, f, v@, at) == latest(self@.take(i as int), f, v@, at),
            decreases i,
        {
            i -= 1;
            let l = &self.0[i];
            proof {
                assert(self@.take(i + 1).last() == l@);
                assert(self@.take(i + 1).drop_last() =~= self@.take(i as int));
            }
            let timely = match at {
                Some(when) => !l.abandoned && l.is_active_at(when),
                None => true,
            };
            if timely && f.holds(l, v) {
                return Some(l.clone());
            }
        }
        None
    }

    /// Every record with the value `v` in the field `f`, in log order.
    pub fn all_by(&self, f: LeasesField, v: &str) -> (r: Vec<Lease>)
        ensures
            lease_views(r@) == all_matches(self@, f, v@),
    {
        let mut res: Vec<Lease> = Vec::new();
        let mut i: usize = 0;
        assert(lease_views(res@) =~= all_matches(self@.take(0), f, v@));
        while i < self.0.len()
            invariant
                i <= self.0.len(),
                lease_views(res@) == all_matches(self@.take(i as int), f, v@),
            decreases self.0.len() - i,
        {
            let l = &self.0[i];
            proof {
                assert(self@.take(i + 1).last() == l@);
                assert(self@.take(i + 1).drop_last() =~= self@.take(i as int));
            }
            if f.holds(l, v) {
                let ghost before = lease_views(res@);
                res.push(l.clone());
                assert(lease_views(res@) =~= before.push(l@));
            }
            i += 1;
        }
        assert(self@.take(i as int) =~= self@);
        res
    }

    /// Every value that some record has in the field `f`, each once; the
    /// empty text is no value.
    pub fn values_of(&self, f: LeasesField) -> (r: Vec<String>)
        ensures
            texts(r@).no_duplicates(),
            forall|v: Seq<char>| texts(r@).contains(v) <==> occurs(self@, f, v),
    {
        let mut res: Vec<String> = Vec::new();
        let mut i: usize = 0;
        while i < self.0.len()
            invariant
                i <= self.0.len(),
                texts(res@).no_duplicates(),
                forall|v: Seq<char>| texts(res@).contains(v) <==> occurs(self@.take(i as int), f, v),
            decreases self.0.len() - i,
        {
            let ghost before = texts(res@);
            let ghost seen = self@.take(i as int);
            let ghost next = self@.take(i + 1);
            proof {
                assert(next.drop_last() =~= seen);
                assert(next.last() == self.0@[i as int]@);
            }
            match f.value_getter(&self.0[i]) {
                Some(s) => {
                    if !s.as_str().is_empty() && !is_listed(&res, &s) {
                        let ghost sv = s@;
                        res.push(s);
                        proof {
                            assert(texts(res@) =~= before.push(sv));
                            assert(texts(res@)[before.len() as int] == sv);
                        }
                    }
                },
                None => {},
            }
            proof {
                assert forall|v: Seq<char>| texts(res@).contains(v) <==> occurs(next, f, v) by {
                    values_step(seen, next, before, texts(res@), f, v);
                }
            }
            i += 1;
        }
        assert(self@.take(i as int) =~= self@);
        res
    }
}

/// One step of collecting values: where `after` lists what `before` lists
/// and the value of the record that `next` adds to `seen`, unless that is
/// empty, and `before` lists the values to collect from `seen`, `after`
/// lists those to collect from `next`.
proof fn values_step(
    seen: Seq<LeaseView>,
    next: Seq<LeaseView>,
    before: Seq<Seq<char>>,
    after: Seq<Seq<char>>,
    f: LeasesField,
    v: Seq<char>,
)
    requires
        next.len() > 0,
        seen == next.drop_last(),
        before.contains(v) <==> occurs(seen, f, v),
        match field_value(next.last(), f) {
            Some(s) => if s.len() > 0 {
                after.contains(s) && (after == before || after == before.push(s))
            } else {
                after == before
            },
            None => after == before,
        },
    ensures
        after.contains(v) <==> occurs(next, f, v),
{
    if occurs(next, f, v) {
        let i = choose|i: int| 0 <= i < next.len() && field_value(#[trigger] next[i], f) == Some(v);
        if i < next.len() - 1 {
            assert(seen[i] == next[i]);
            assert(occurs(seen, f, v));
            assert(before.contains(v));
            let k = choose|k: int| 0 <= k < before.len() && before[k] == v;
            assert(after[k] == v);
        }
    }
    if after.contains(v) {
        let k = choose|k: int| 0 <= k < after.len() && after[k] == v;
        if k < before.len() {
            assert(before[k] == v);
            assert(before.contains(v));
            let i = choose|i: int| 0 <= i < seen.len() && field_value(#[trigger] seen[i], f) == Some(v);
            assert(next[i] == seen[i]);
        } else {
            assert(field_value(next[next.len() - 1], f) == Some(v));
        }
    }
}

impl LeasesMethods for Leases {
    /// Every record, in log order.
    fn all(&self) -> (r: Vec<Lease>)
        ensures
            lease_views(r@) == self@,
    {
        let mut res: Vec<Lease> = Vec::new();
        let mut i: usize = 0;
        while i < self.0.len()
            invariant
                i <= self.0.len(),
                lease_views(res@) == self@.take(i as int),
            decreases self.0.len() - i,
        {
            let ghost before = lease_views(res@);
            res.push(self.0[i].clone());
            assert(lease_views(res@) =~= before.push(self.0@[i as int]@));
            assert(before.push(self.0@[i as int]@) =~= self@.take(i + 1));
            i += 1;
        }
        assert(self@.take(i as int) =~= self@);
        res
    }

    /// The latest record with `value` in the field `field_name` that is not
    /// abandoned and is in force at `active_at`.
    fn active_by(&self, field_name: LeasesField, value: &str, active_at: Date) -> (r: Option<Lease>)
        ensures
            found(r) == latest(self@, field_name, value@, Some(active_at)),
    {
        self.latest_by(field_name, value, Some(active_at))
    }

    /// The latest record for the address `ip`.
    fn by_leased(&self, ip: &str) -> (r: Option<Lease>)
        ensures
            found(r) == latest(self@, LeasesField::LeasedIP, ip@, None),
    {
        self.latest_by(LeasesField::LeasedIP, ip, None)
    }

    /// Every record for the address `ip`, in log order.
    fn by_leased_all(&self, ip: &str) -> (r: Vec<Lease>)
        ensures
            lease_views(r@) == all_matches(self@, LeasesField::LeasedIP, ip@),
    {
        self.all_by(LeasesField::LeasedIP, ip)
    }

    /// The latest record held by the hardware address `mac`.
    fn by_mac(&self, mac: &str) -> (r: Option<Lease>)
        ensures
            found(r) == latest(self@, LeasesField::MAC, mac@, None),
    {
        self.latest_by(LeasesField::MAC, mac, None)
    }

    /// Every record held by the hardware address `mac`, in log order.
    fn by_mac_all(&self, mac: &str) -> (r: Vec<Lease>)
        ensures
            lease_views(r@) == all_matches(self@, LeasesField::MAC, mac@),
    {
        self.all_by(LeasesField::MAC, mac)
    }

    /// The latest record with the server-assigned name `hostname` that is
    /// not abandoned and is in force at `active_at`.
    fn active_by_hostname(&self, hostname: &str, active_at: Date) -> (r: Option<Lease>)
        ensures
            found(r) == latest(self@, LeasesField::Hostname, hostname@, Some(active_at)),
    {
        self.latest_by(LeasesField::Hostname, hostname, Some(active_at))
    }

    /// Every record with the server-assigned name `hostname`, in log order.
    fn by_hostname_all(&self, hostname: &str) -> (r: Vec<Lease>)
        ensures
            lease_views(r@) == all_matches(self@, LeasesField::Hostname, hostname@),
    {
        self.all_by(LeasesField::Hostname, hostname)
    }

    /// The latest record with the client-supplied name `hostname` that is
    /// not abandoned and is in force at `active_at`.
    fn active_by_client_hostname(&self, hostname: &str, active_at: Date) -> (r: Option<Lease>)
        ensures
            found(r) == latest(self@, LeasesField::ClientHostname, hostname@, Some(active_at)),
    {
        self.latest_by(LeasesField::ClientHostname, hostname, Some(active_at))
    }

    /// Every record with the client-supplied name `hostname`, in log order.
    fn by_client_hostname_all(&self, hostname: &str) -> (r: Vec<Lease>)
        ensures
            lease_views(r@) == all_matches(self@, LeasesField::ClientHostname, hostname@),
    {
        self.all_by(LeasesField::ClientHostname, hostname)
    }

    /// The empty log.
    fn new() -> (r: Leases)
        ensures
            r@ == Seq::<LeaseView>::empty(),
    {
        let r = Leases(Vec::new());
        assert(r@ =~= Seq::<LeaseView>::empty());
        r
    }

    /// Adds a record at the end of the log; the records before it stay as
    /// they are.
    fn push(&mut self, l: Lease)
        ensures
            final(self)@ == old(self)@.push(l@),
    {
        self.0.push(l);
        assert(self@ =~= old(self)@.push(l@));
    }

    /// Every server-assigned name in the log that is not empty, each once.
    fn hostnames(&self) -> (r: Vec<String>)
        ensures
            texts(r@).no_duplicates(),
            forall|v: Seq<char>| texts(r@).contains(v) <==> occurs(self@, LeasesField::Hostname, v),
    {
        self.values_of(LeasesField::Hostname)
    }

    /// Every client-supplied name in the log that is not empty, each once.
    fn client_hostnames(&self) -> (r: Vec<String>)
        ensures
            texts(r@).no_duplicates(),
            forall|v: Seq<char>| texts(r@).contains(v) <==> occurs(
                self@,
                LeasesField::ClientHostname,
                v,
            ),
    {
        self.values_of(LeasesField::ClientHostname)
    }
}

} // verus!
