//! The tokens of a lease database and the tokenizer that produces them.

use vstd::prelude::*;
use vstd::string::*;
use crate::leases::{keyword_of, keywords_have_text, LeaseKeyword};
use crate::parser::{declaration_of, ConfigKeyword};

verus! {

/// One token of a lease database.
#[derive(Debug, PartialEq, Eq)]
pub enum LexItem {
    /// The opening brace of a block.
    OpenBrace,
    /// The closing brace of a block.
    CloseBrace,
    /// The statement terminator `;`.
    Endl,
    /// Literal text: an address, an identifier, a part of a date.
    Word(String),
    /// A keyword that starts a statement inside a lease block.
    Opt(LeaseKeyword),
    /// A keyword that starts a declaration at the top level.
    Decl(ConfigKeyword),
}

/// The mathematical value of a [`LexItem`].
pub ghost enum Token {
    OpenBrace,
    CloseBrace,
    Endl,
    Word(Seq<char>),
    Opt(LeaseKeyword),
    Decl(ConfigKeyword),
}

impl Token {
    /// The text that stands for the token in values and in messages.
    pub open spec fn text(self) -> Seq<char> {
        match self {
            Token::OpenBrace => "{"@,
            Token::CloseBrace => "}"@,
            Token::Endl => ";"@,
            Token::Word(w) => w,
            Token::Opt(k) => k.text(),
            Token::Decl(k) => k.text(),
        }
    }
}

impl View for LexItem {
    type V = Token;

    open spec fn view(&self) -> Token {
        match self {
            LexItem::OpenBrace => Token::OpenBrace,
            LexItem::CloseBrace => Token::CloseBrace,
            LexItem::Endl => Token::Endl,
            LexItem::Word(w) => Token::Word(w@),
            LexItem::Opt(k) => Token::Opt(*k),
            LexItem::Decl(k) => Token::Decl(*k),
        }
    }
}

impl Clone for LexItem {
    fn clone(&self) -> (r: LexItem)
        ensures
            r@ == self@,
    {
        match self {
            LexItem::OpenBrace => LexItem::OpenBrace,
            LexItem::CloseBrace => LexItem::CloseBrace,
            LexItem::Endl => LexItem::Endl,
            LexItem::Word(w) => LexItem::Word(w.clone()),
            LexItem::Opt(k) => LexItem::Opt(*k),
            LexItem::Decl(k) => LexItem::Decl(*k),
        }
    }
}

/// The values of a sequence of tokens, in order.
pub open spec fn views(items: Seq<LexItem>) -> Seq<Token> {
    Seq::new(items.len(), |i: int| items[i]@)
}

impl LexItem {
    /// The text that stands for the token.
    pub fn to_string(&self) -> (s: String)
        ensures
            s@ == self@.text(),
    {
        match self {
            LexItem::OpenBrace => "{".to_owned(),
            LexItem::CloseBrace => "}".to_owned(),
            LexItem::Endl => ";".to_owned(),
            LexItem::Word(w) => w.clone(),
            LexItem::Opt(k) => k.to_string(),
            LexItem::Decl(k) => k.to_string(),
        }
    }
}

/// Whether `c` separates tokens without being one.
pub open spec fn is_blank(c: char) -> bool {
    c == ' ' || c == '\t' || c == '\n' || c == '\r'
}

/// Whether `c` ends a word: a blank, a brace or the statement terminator.
pub open spec fn ends_word(c: char) -> bool {
    is_blank(c) || c == ';' || c == '{' || c == '}'
}

/// The end of the word that runs through `i`: the first position from `i`
/// on that holds a character which ends a word, or the end of the text.
pub open spec fn word_end(s: Seq<char>, i: int) -> int
    decreases s.len() - i,
{
    if i < 0 || i >= s.len() || ends_word(s[i]) {
        i
    } else {
        word_end(s, i + 1)
    }
}

/// The end of the line that runs through `i`: the first position from `i` on
/// that holds a line feed, or the end of the text.
pub open spec fn line_end(s: Seq<char>, i: int) -> int
    decreases s.len() - i,
{
    if i < 0 || i >= s.len() || s[i] == '\n' {
        i
    } else {
        line_end(s, i + 1)
    }
}

/// The end of a quoted literal whose inside starts at `i`: just behind the
/// first double quote from `i` on, or the end of the text where none closes
/// the literal.
pub open spec fn quote_end(s: Seq<char>, i: int) -> int
    decreases s.len() - i,
{
    if i < 0 || i >= s.len() {
        i
    } else if s[i] == '"' {
        i + 1
    } else {
        quote_end(s, i + 1)
    }
}

/// The token that a word stands for: a declaration keyword, a lease option
/// keyword, or else literal text.
pub open spec fn classify(w: Seq<char>) -> Token {
    match declaration_of(w) {
        Some(k) => Token::Decl(k),
        None => match keyword_of(w) {
            Some(k) => Token::Opt(k),
            None => Token::Word(w),
        },
    }
}

/// The end of the token that starts at the non-blank position `i`.
pub open spec fn token_end(s: Seq<char>, i: int) -> int {
    if s[i] == ';' || s[i] == '{' || s[i] == '}' {
        i + 1
    } else if s[i] == '#' {
        line_end(s, i + 1)
    } else if s[i] == '"' {
        quote_end(s, i + 1)
    } else {
        word_end(s, i + 1)
    }
}

/// The token that starts at the non-blank position `i`.
pub open spec fn token_at(s: Seq<char>, i: int) -> Token {
    if s[i] == ';' {
        Token::Endl
    } else if s[i] == '{' {
        Token::OpenBrace
    } else if s[i] == '}' {
        Token::CloseBrace
    } else if s[i] == '#' {
        Token::Decl(ConfigKeyword::Comment)
    } else if s[i] == '"' {
        Token::Word(s.subrange(i, token_end(s, i)))
    } else {
        classify(s.subrange(i, token_end(s, i)))
    }
}

/// Every token ends behind its start and within the text.
pub proof fn token_end_bounds(s: Seq<char>, i: int)
    requires
        0 <= i < s.len(),
    ensures
        i < token_end(s, i) <= s.len(),
{
    run_end_bounds(s, i + 1);
}

/// The three kinds of run end at or behind their start and within the text.
pub proof fn run_end_bounds(s: Seq<char>, i: int)
    requires
        0 <= i <= s.len(),
    ensures
        i <= word_end(s, i) <= s.len(),
        i <= line_end(s, i) <= s.len(),
        i <= quote_end(s, i) <= s.len(),
    decreases s.len() - i,
{
    if i < s.len() {
        run_end_bounds(s, i + 1);
    }
}

/// The tokens of the text `s` from position `i` on: blanks are skipped; a
/// terminator or a brace is a token by itself; `#` starts a comment that
/// runs to the end of its line; a double quote starts a literal that runs
/// through the closing quote; any other character starts a word.
pub open spec fn scan(s: Seq<char>, i: int) -> Seq<Token>
    decreases s.len() - i,
    via scan_decreases
{
    if i < 0 || i >= s.len() {
        Seq::empty()
    } else if is_blank(s[i]) {
        scan(s, i + 1)
    } else {
        seq![token_at(s, i)] + scan(s, token_end(s, i))
    }
}

#[via_fn]
proof fn scan_decreases(s: Seq<char>, i: int) {
    if 0 <= i < s.len() {
        token_end_bounds(s, i);
    }
}

/// Every token of a text stands for at least one character.
pub proof fn scanned_tokens_have_text(s: Seq<char>, i: int)
    requires
        0 <= i,
    ensures
        forall|k: int| 0 <= k < scan(s, i).len() ==> (#[trigger] scan(s, i)[k]).text().len() > 0,
    decreases s.len() - i,
{
    if i < s.len() {
        if is_blank(s[i]) {
            scanned_tokens_have_text(s, i + 1);
            assert(scan(s, i) == scan(s, i + 1));
        } else {
            token_end_bounds(s, i);
            scanned_tokens_have_text(s, token_end(s, i));
            let t = token_at(s, i);
            assert(t.text().len() > 0) by {
                reveal_strlit(";");
                reveal_strlit("{");
                reveal_strlit("}");
                reveal_strlit("#");
                reveal_strlit("lease");
                keywords_have_text();
            }
            let rest = scan(s, token_end(s, i));
            assert forall|k: int| 0 <= k < scan(s, i).len() implies (#[trigger] scan(
                s,
                i,
            )[k]).text().len() > 0 by {
                if k > 0 {
                    assert(scan(s, i)[k] == rest[k - 1]);
                } else {
                    assert(scan(s, i)[0] == t);
                }
            }
        }
    } else {
        assert(scan(s, i).len() == 0);
    }
}

/// Reads the character at `i`, in one step where the text is known to be
/// ASCII.
fn char_at(s: &str, ascii: bool, i: usize) -> (c: char)
    requires
        ascii ==> s.is_ascii(),
        i < s@.len(),
    ensures
        c == s@[i as int],
{
    if ascii {
        let b = s.get_ascii(i);
        let c = b as char;
        assert(c == s@[i as int]);
        c
    } else {
        s.get_char(i)
    }
}

/// The part of the text from `from` up to `to`, in one step where the text
/// is known to be ASCII.
fn piece<'a>(s: &'a str, ascii: bool, from: usize, to: usize) -> (r: &'a str)
    requires
        ascii ==> s.is_ascii(),
        from <= to <= s@.len(),
    ensures
        r@ == s@.subrange(from as int, to as int),
{
    if ascii {
        s.substring_ascii(from, to)
    } else {
        s.substring_char(from, to)
    }
}

/// Finds the end of the word that runs through `from`.
fn find_word_end(s: &str, ascii: bool, len: usize, from: usize) -> (end: usize)
    requires
        ascii ==> s.is_ascii(),
        len == s@.len(),
        from <= len,
    ensures
        end == word_end(s@, from as int),
        from <= end <= len,
{
    let mut j: usize = from;
    while j < len
        invariant
            ascii ==> s.is_ascii(),
            len == s@.len(),
            from <= j <= len,
            word_end(s@, from as int) == word_end(s@, j as int),
        decreases len - j,
    {
        let c = char_at(s, ascii, j);
        if c == ' ' || c == '\t' || c == '\n' || c == '\r' || c == ';' || c == '{' || c == '}' {
            return j;
        }
        j += 1;
    }
    j
}

/// Finds the end of the line that runs through `from`.
fn find_line_end(s: &str, ascii: bool, len: usize, from: usize) -> (end: usize)
    requires
        ascii ==> s.is_ascii(),
        len == s@.len(),
        from <= len,
    ensures
        end == line_end(s@, from as int),
        from <= end <= len,
{
    let mut j: usize = from;
    while j < len
        invariant
            ascii ==> s.is_ascii(),
            len == s@.len(),
            from <= j <= len,
            line_end(s@, from as int) == line_end(s@, j as int),
        decreases len - j,
    {
        if char_at(s, ascii, j) == '\n' {
            return j;
        }
        j += 1;
    }
    j
}

/// Finds the end of the quoted literal whose inside starts at `from`.
fn find_quote_end(s: &str, ascii: bool, len: usize, from: usize) -> (end: usize)
    requires
        ascii ==> s.is_ascii(),
        len == s@.len(),
        from <= len,
    ensures
        end == quote_end(s@, from as int),
        from <= end <= len,
{
    let mut j: usize = from;
    while j < len
        invariant
            ascii ==> s.is_ascii(),
            len == s@.len(),
            from <= j <= len,
            quote_end(s@, from as int) == quote_end(s@, j as int),
        decreases len - j,
    {
        if char_at(s, ascii, j) == '"' {
            return j + 1;
        }
        j += 1;
    }
    j
}

/// Turns a word into the token it stands for.
pub fn classify_word(w: &str) -> (item: LexItem)
    ensures
        item@ == classify(w@),
{
    match ConfigKeyword::from(w) {
        Ok(k) => LexItem::Decl(k),
        Err(_) => match LeaseKeyword::from(w) {
            Ok(k) => LexItem::Opt(k),
            Err(_) => LexItem::Word(w.to_owned()),
        },
    }
}

/// Splits the text of a lease database into its tokens.
pub fn lex(input: &str) -> (tokens: Vec<LexItem>)
    ensures
        views(tokens@) == scan(input@, 0),
{
    let ascii = input.is_ascii();
    let len = input.unicode_len();
    let mut tokens: Vec<LexItem> = Vec::new();
    let mut i: usize = 0;
    assert(views(tokens@) + scan(input@, 0) =~= scan(input@, 0));
    while i < len
        invariant
            ascii ==> input.is_ascii(),
            len == input@.len(),
            i <= len,
            views(tokens@) + scan(input@, i as int) == scan(input@, 0),
        decreases len - i,
    {
        let c = char_at(input, ascii, i);
        let ghost before = tokens@;
        let start = i;
        if c == ' ' || c == '\t' || c == '\n' || c == '\r' {
            i += 1;
        } else {
            if c == ';' {
                tokens.push(LexItem::Endl);
                i += 1;
            } else if c == '{' {
                tokens.push(LexItem::OpenBrace);
                i += 1;
            } else if c == '}' {
                tokens.push(LexItem::CloseBrace);
                i += 1;
            } else if c == '#' {
                i = find_line_end(input, ascii, len, i + 1);
                tokens.push(LexItem::Decl(ConfigKeyword::Comment));
            } else if c == '"' {
                i = find_quote_end(input, ascii, len, i + 1);
                tokens.push(LexItem::Word(piece(input, ascii, start, i).to_owned()));
            } else {
                i = find_word_end(input, ascii, len, i + 1);
                tokens.push(classify_word(piece(input, ascii, start, i)));
            }
            proof {
                assert(i == token_end(input@, start as int));
                assert(tokens@.last()@ == token_at(input@, start as int));
                assert(views(tokens@) =~= views(before) + seq![token_at(input@, start as int)]);
                assert(views(tokens@) + scan(input@, i as int) =~= views(before) + scan(
                    input@,
                    start as int,
                ));
            }
        }
    }
    assert(views(tokens@) + scan(input@, i as int) =~= views(tokens@));
    tokens
}

} // verus!
