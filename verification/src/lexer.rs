//! The tokenizer: turns source text into a sequence of located instruction
//! tokens.
//!
//! Exactly the eight characters `+ - . , > < [ ]` are instructions. The
//! whitespace characters space, tab, carriage return and newline are
//! silently skipped. Every other character is a lexical fault; the scan
//! never stops early, so one pass reports every bad character at once.

use crate::{Location, LocationView};
use vstd::prelude::*;

verus! {

/// One accepted instruction character, carrying where it stood.
#[derive(Debug)]
pub enum Token {
    Increment(Location),
    Decrement(Location),
    Print(Location),
    Read(Location),
    MoveRight(Location),
    MoveLeft(Location),
    OpenBracket(Location),
    CloseBracket(Location),
}

/// The kind of a [`Token`], separated from its location so that
/// specifications can speak of the two independently.
pub enum TokenKind {
    Increment,
    Decrement,
    Print,
    Read,
    MoveRight,
    MoveLeft,
    OpenBracket,
    CloseBracket,
}

/// The mathematical value of a [`Token`]: its kind and its location.
pub ghost struct TokenView {
    pub kind: TokenKind,
    pub loc: LocationView,
}

impl View for Token {
    type V = TokenView;

    open spec fn view(&self) -> TokenView {
        match self {
            Token::Increment(l) => TokenView { kind: TokenKind::Increment, loc: l@ },
            Token::Decrement(l) => TokenView { kind: TokenKind::Decrement, loc: l@ },
            Token::Print(l) => TokenView { kind: TokenKind::Print, loc: l@ },
            Token::Read(l) => TokenView { kind: TokenKind::Read, loc: l@ },
            Token::MoveRight(l) => TokenView { kind: TokenKind::MoveRight, loc: l@ },
            Token::MoveLeft(l) => TokenView { kind: TokenKind::MoveLeft, loc: l@ },
            Token::OpenBracket(l) => TokenView { kind: TokenKind::OpenBracket, loc: l@ },
            Token::CloseBracket(l) => TokenView { kind: TokenKind::CloseBracket, loc: l@ },
        }
    }
}

impl DeepView for Token {
    type V = TokenView;

    open spec fn deep_view(&self) -> TokenView {
        self.view()
    }
}

/// A lexical fault: a character that is neither an instruction nor
/// whitespace.
#[derive(Debug)]
pub enum Error {
    InvalidCharacter(char, Location),
}

/// The mathematical value of a lexical fault.
pub ghost struct ErrorView {
    pub chr: char,
    pub loc: LocationView,
}

impl View for Error {
    type V = ErrorView;

    open spec fn view(&self) -> ErrorView {
        match self {
            Error::InvalidCharacter(c, l) => ErrorView { chr: *c, loc: l@ },
        }
    }
}

impl DeepView for Error {
    type V = ErrorView;

    open spec fn deep_view(&self) -> ErrorView {
        self.view()
    }
}

/// Whether `c` is one of the eight instruction characters.
pub open spec fn is_instruction_char(c: char) -> bool {
    c == '+' || c == '-' || c == '.' || c == ',' || c == '>' || c == '<' || c == '[' || c == ']'
}

/// Whether the tokenizer skips `c` as whitespace: space, tab, carriage
/// return or newline.
pub open spec fn is_whitespace_char(c: char) -> bool {
    c == ' ' || c == '\t' || c == '\r' || c == '\n'
}

/// The token kind that an instruction character stands for.
pub open spec fn kind_of_char(c: char) -> TokenKind {
    if c == '+' {
        TokenKind::Increment
    } else if c == '-' {
        TokenKind::Decrement
    } else if c == '.' {
        TokenKind::Print
    } else if c == ',' {
        TokenKind::Read
    } else if c == '>' {
        TokenKind::MoveRight
    } else if c == '<' {
        TokenKind::MoveLeft
    } else if c == '[' {
        TokenKind::OpenBracket
    } else {
        TokenKind::CloseBracket
    }
}

/// The instruction character that a token kind stands for; the inverse of
/// [`kind_of_char`] on instruction characters.
pub open spec fn char_of_kind(k: TokenKind) -> char {
    match k {
        TokenKind::Increment => '+',
        TokenKind::Decrement => '-',
        TokenKind::Print => '.',
        TokenKind::Read => ',',
        TokenKind::MoveRight => '>',
        TokenKind::MoveLeft => '<',
        TokenKind::OpenBracket => '[',
        TokenKind::CloseBracket => ']',
    }
}

/// The index of the first character of the line that position `i` stands
/// on: 0, or the position just after the previous newline.
pub open spec fn line_start(s: Seq<char>, i: int) -> int
    decreases i,
{
    if i <= 0 {
        0
    } else if s[i - 1] == '\n' {
        i
    } else {
        line_start(s, i - 1)
    }
}

/// The index just past the last character of the line that position `i`
/// stands on: the position of the next newline at or after `i`, or the end
/// of the text.
pub open spec fn line_end(s: Seq<char>, i: int) -> int
    decreases s.len() - i,
{
    if i < 0 || i >= s.len() {
        s.len() as int
    } else if s[i] == '\n' {
        i
    } else {
        line_end(s, i + 1)
    }
}

/// The 1-based line number of position `i`: one more than the number of
/// newlines before it.
pub open spec fn line_number(s: Seq<char>, i: int) -> int
    decreases i,
{
    if i <= 0 {
        1
    } else if s[i - 1] == '\n' {
        line_number(s, i - 1) + 1
    } else {
        line_number(s, i - 1)
    }
}

/// The location of the character at position `i` of the source text `s`:
/// its line's text, its 1-based line number, and the character's half-open
/// 0-based column range within the line.
pub open spec fn location_at(s: Seq<char>, file: Seq<char>, i: int) -> LocationView {
    LocationView {
        file: file,
        line: s.subrange(line_start(s, i), line_end(s, i)),
        lineno: line_number(s, i),
        start: i - line_start(s, i),
        end: i - line_start(s, i) + 1,
    }
}

/// The tokens of the source text from position `i` on: one per instruction
/// character, in source order.
pub open spec fn spec_tokens(s: Seq<char>, file: Seq<char>, i: int) -> Seq<TokenView>
    decreases s.len() - i,
{
    if i < 0 || i >= s.len() {
        Seq::empty()
    } else if is_instruction_char(s[i]) {
        seq![TokenView { kind: kind_of_char(s[i]), loc: location_at(s, file, i) }]
            + spec_tokens(s, file, i + 1)
    } else {
        spec_tokens(s, file, i + 1)
    }
}

/// The lexical faults of the source text from position `i` on: one per
/// character that is neither an instruction nor whitespace, in source
/// order.
pub open spec fn spec_lex_errors(s: Seq<char>, file: Seq<char>, i: int) -> Seq<ErrorView>
    decreases s.len() - i,
{
    if i < 0 || i >= s.len() {
        Seq::empty()
    } else if !is_instruction_char(s[i]) && !is_whitespace_char(s[i]) {
        seq![ErrorView { chr: s[i], loc: location_at(s, file, i) }]
            + spec_lex_errors(s, file, i + 1)
    } else {
        spec_lex_errors(s, file, i + 1)
    }
}

/// A line number is at most one more than the position it belongs to.
proof fn lemma_line_number_le(s: Seq<char>, i: int)
    requires
        0 <= i,
    ensures
        1 <= line_number(s, i) <= i + 1,
    decreases i,
{
    if i > 0 {
        lemma_line_number_le(s, i - 1);
    }
}

/// A location with `range` underlining the single character at column
/// `col` (0-based) of the given line.
fn loc(file: &str, line: &str, lineno: usize, col: usize) -> (r: Location)
    requires
        col < usize::MAX,
    ensures
        r@ == (LocationView {
            file: file@,
            line: line@,
            lineno: lineno as int,
            start: col as int,
            end: col as int + 1,
        }),
{
    Location { file: file.to_owned(), line: line.to_owned(), lineno, range: (col, col + 1) }
}

/// The position of the next newline at or after `from`, or the end of the
/// text.
fn find_line_end(content: &str, from: usize) -> (e: usize)
    requires
        from <= content@.len(),
    ensures
        e == line_end(content@, from as int),
        from <= e <= content@.len(),
{
    let n: usize = content.unicode_len();
    let mut j: usize = from;
    while j < n
        invariant
            from <= j <= n,
            n == content@.len(),
            line_end(content@, from as int) == line_end(content@, j as int),
        decreases n - j,
    {
        let c: char = content.get_char(j);
        if c == '\n' {
            return j;
        }
        j = j + 1;
    }
    j
}

/// Scans the source text line by line, column by column, and returns its
/// tokens in source order, or every lexical fault found, in source order.
///
/// The result is `Ok` exactly when no character of the text is a lexical
/// fault; the fault list of an `Err` is never empty.
pub fn lex(content: &str, file: &str) -> (r: Result<Vec<Token>, Vec<Error>>)
    requires
        content@.len() < usize::MAX,
    ensures
        match r {
            Ok(toks) => toks.deep_view() == spec_tokens(content@, file@, 0)
                && spec_lex_errors(content@, file@, 0).len() == 0,
            Err(errs) => errs.deep_view() == spec_lex_errors(content@, file@, 0)
                && errs.deep_view().len() > 0,
        },
{
    let ghost s = content@;
    let n: usize = content.unicode_len();
    let mut toks: Vec<Token> = Vec::new();
    let mut errs: Vec<Error> = Vec::new();
    let mut lineno: usize = 1;
    let mut start_of_line: usize = 0;
    let mut end_of_line: usize = find_line_end(content, 0);
    let mut line: &str = content.substring_char(0, end_of_line);
    let mut i: usize = 0;
    while i < n
        invariant
            n == s.len(),
            n < usize::MAX,
            s == content@,
            i <= n,
            start_of_line as int == line_start(s, i as int),
            end_of_line as int == line_end(s, i as int),
            lineno as int == line_number(s, i as int),
            line@ == s.subrange(start_of_line as int, end_of_line as int),
            start_of_line <= i,
            end_of_line <= n,
            toks.deep_view() + spec_tokens(s, file@, i as int) == spec_tokens(s, file@, 0),
            errs.deep_view() + spec_lex_errors(s, file@, i as int) == spec_lex_errors(
                s,
                file@,
                0,
            ),
        decreases n - i,
    {
        let ghost toks_before = toks.deep_view();
        let ghost errs_before = errs.deep_view();
        let c: char = content.get_char(i);
        if c == '+' || c == '-' || c == '.' || c == ',' || c == '>' || c == '<' || c == '['
            || c == ']' {
            let l = loc(file, line, lineno, i - start_of_line);
            let t = if c == '+' {
                Token::Increment(l)
            } else if c == '-' {
                Token::Decrement(l)
            } else if c == '.' {
                Token::Print(l)
            } else if c == ',' {
                Token::Read(l)
            } else if c == '>' {
                Token::MoveRight(l)
            } else if c == '<' {
                Token::MoveLeft(l)
            } else if c == '[' {
                Token::OpenBracket(l)
            } else {
                Token::CloseBracket(l)
            };
            proof {
                assert(t@ == (TokenView { kind: kind_of_char(c), loc: location_at(s, file@, i as int) }));
            }
            toks.push(t);
            proof {
                assert(toks.deep_view() =~= toks_before.push(t@));
                assert(toks_before.push(t@) + spec_tokens(s, file@, i + 1) =~= toks_before
                    + spec_tokens(s, file@, i as int));
            }
        } else if c == ' ' || c == '\t' || c == '\r' || c == '\n' {
        } else {
            let e = Error::InvalidCharacter(c, loc(file, line, lineno, i - start_of_line));
            proof {
                assert(e@ == (ErrorView { chr: c, loc: location_at(s, file@, i as int) }));
            }
            errs.push(e);
            proof {
                assert(errs.deep_view() =~= errs_before.push(e@));
                assert(errs_before.push(e@) + spec_lex_errors(s, file@, i + 1) =~= errs_before
                    + spec_lex_errors(s, file@, i as int));
            }
        }
        if c == '\n' {
            proof {
                lemma_line_number_le(s, i as int);
            }
            lineno = lineno + 1;
            start_of_line = i + 1;
            end_of_line = find_line_end(content, i + 1);
            line = content.substring_char(start_of_line, end_of_line);
        }
        i = i + 1;
    }
    proof {
        assert(spec_tokens(s, file@, n as int) =~= Seq::<TokenView>::empty());
        assert(spec_lex_errors(s, file@, n as int) =~= Seq::<ErrorView>::empty());
        assert(toks.deep_view() + Seq::<TokenView>::empty() =~= toks.deep_view());
        assert(errs.deep_view() + Seq::<ErrorView>::empty() =~= errs.deep_view());
    }
    if errs.is_empty() {
        Ok(toks)
    } else {
        Err(errs)
    }
}

/// The instruction characters that a token sequence stands for, in order.
pub open spec fn token_chars(toks: Seq<TokenView>) -> Seq<char> {
    toks.map_values(|t: TokenView| char_of_kind(t.kind))
}

/// Law: tokenizing keeps exactly the instruction characters of the source,
/// in source order, with no duplicate and no omission — handing the token
/// sequence back through a formatter that prints one character per token
/// reproduces the instruction characters of the text.
pub proof fn lemma_tokens_match_instruction_chars(s: Seq<char>, file: Seq<char>)
    ensures
        token_chars(spec_tokens(s, file, 0)) == s.filter(|c: char| is_instruction_char(c)),
{
    lemma_tokens_match_from(s, file, 0);
    assert(s.skip(0) =~= s);
}

/// The tokens from position `i` on stand for the instruction characters of
/// the rest of the text.
proof fn lemma_tokens_match_from(s: Seq<char>, file: Seq<char>, i: int)
    requires
        0 <= i <= s.len(),
    ensures
        token_chars(spec_tokens(s, file, i)) == s.skip(i).filter(
            |c: char| is_instruction_char(c),
        ),
    decreases s.len() - i,
{
    let pred = |c: char| is_instruction_char(c);
    if i >= s.len() {
        assert(s.skip(i) =~= Seq::<char>::empty());
        assert(s.skip(i).filter(pred) =~= Seq::<char>::empty());
        assert(token_chars(spec_tokens(s, file, i)) =~= Seq::<char>::empty());
    } else {
        lemma_tokens_match_from(s, file, i + 1);
        assert(s.skip(i) =~= seq![s[i]] + s.skip(i + 1));
        Seq::filter_distributes_over_add(seq![s[i]], s.skip(i + 1), pred);
        reveal_with_fuel(Seq::filter, 2);
        assert(seq![s[i]].drop_last() =~= Seq::<char>::empty());
        assert(seq![s[i]].filter(pred) =~= if pred(s[i]) { seq![s[i]] } else { Seq::<char>::empty() });
        if is_instruction_char(s[i]) {
            let tv = TokenView { kind: kind_of_char(s[i]), loc: location_at(s, file, i) };
            assert(token_chars(seq![tv] + spec_tokens(s, file, i + 1)) =~= seq![char_of_kind(tv.kind)]
                + token_chars(spec_tokens(s, file, i + 1)));
            assert(char_of_kind(kind_of_char(s[i])) == s[i]);
            assert(token_chars(spec_tokens(s, file, i)) =~= s.skip(i).filter(pred));
        } else {
            assert(token_chars(spec_tokens(s, file, i)) =~= s.skip(i).filter(pred));
        }
    }
}

} // verus!
