//! The scanner: from source text to tokens.

use vstd::prelude::*;
use crate::literal::{Literal, LiteralView};
use crate::text::chars_of;
use crate::token::{token_views, Token, TokenView};
use crate::token_kind::TokenKind;

verus! {

/// Input that is no token, with the line it was found on.
#[derive(Debug)]
pub struct ScanError {
    pub line: usize,
    pub message: String,
}

/// The mathematical value of a [`ScanError`].
pub struct ScanErrorView {
    pub line: nat,
    pub message: Seq<char>,
}

impl View for ScanError {
    type V = ScanErrorView;

    open spec fn view(&self) -> ScanErrorView {
        ScanErrorView { line: self.line as nat, message: self.message@ }
    }
}

/// The values of a sequence of scan errors, in order.
pub open spec fn scan_error_views(errors: Seq<ScanError>) -> Seq<ScanErrorView> {
    Seq::new(errors.len(), |i: int| errors[i]@)
}

/// A decimal digit.
pub open spec fn is_digit(c: char) -> bool {
    '0' <= c <= '9'
}

/// A character that may start an identifier: a letter or `_`.
pub open spec fn is_alpha(c: char) -> bool {
    'a' <= c <= 'z' || 'A' <= c <= 'Z' || c == '_'
}

/// A character that may continue an identifier.
pub open spec fn is_word(c: char) -> bool {
    is_alpha(c) || is_digit(c)
}

/// The classes of characters that a lexeme may be a run of.
pub enum Class {
    Digit,
    Word,
    /// Anything but the end of a line.
    Comment,
    /// Anything but a double quote.
    Quoted,
}

/// Whether `c` belongs to the class.
pub open spec fn in_class(class: Class, c: char) -> bool {
    match class {
        Class::Digit => is_digit(c),
        Class::Word => is_word(c),
        Class::Comment => c != '\n',
        Class::Quoted => c != '"',
    }
}

/// The number of characters from `pos` on that belong to `class` without a
/// break.
pub open spec fn run(source: Seq<char>, pos: int, class: Class) -> nat
    decreases source.len() - pos,
{
    if 0 <= pos < source.len() && in_class(class, source[pos]) {
        1 + run(source, pos + 1, class)
    } else {
        0
    }
}

/// The number of line ends among the characters of `source` from `from` up
/// to `to`.
pub open spec fn newlines(source: Seq<char>, from: int, to: int) -> nat
    decreases to - from,
{
    if to <= from || from < 0 || to > source.len() {
        0
    } else {
        newlines(source, from, to - 1) + if source[to - 1] == '\n' {
            1nat
        } else {
            0nat
        }
    }
}

/// The kind of a word: that of the keyword it spells, else `Identifier`.
pub open spec fn word_kind(word: Seq<char>) -> TokenKind {
    if word == "and"@ {
        TokenKind::And
    } else if word == "class"@ {
        TokenKind::Class
    } else if word == "else"@ {
        TokenKind::Else
    } else if word == "false"@ {
        TokenKind::False
    } else if word == "for"@ {
        TokenKind::For
    } else if word == "fun"@ {
        TokenKind::Fun
    } else if word == "if"@ {
        TokenKind::If
    } else if word == "nil"@ {
        TokenKind::Nil
    } else if word == "or"@ {
        TokenKind::Or
    } else if word == "print"@ {
        TokenKind::Print
    } else if word == "return"@ {
        TokenKind::Return
    } else if word == "super"@ {
        TokenKind::Super
    } else if word == "this"@ {
        TokenKind::This
    } else if word == "true"@ {
        TokenKind::True
    } else if word == "var"@ {
        TokenKind::Var
    } else if word == "while"@ {
        TokenKind::While
    } else {
        TokenKind::Identifier
    }
}

/// The kind of the token that is the one character `c`, for the characters
/// that are a token by themselves wherever they stand.
pub open spec fn single_kind(c: char) -> Option<TokenKind> {
    if c == '(' {
        Some(TokenKind::LeftParen)
    } else if c == ')' {
        Some(TokenKind::RightParen)
    } else if c == '{' {
        Some(TokenKind::LeftBrace)
    } else if c == '}' {
        Some(TokenKind::RightBrace)
    } else if c == ',' {
        Some(TokenKind::Comma)
    } else if c == '.' {
        Some(TokenKind::Dot)
    } else if c == '-' {
        Some(TokenKind::Minus)
    } else if c == '+' {
        Some(TokenKind::Plus)
    } else if c == ';' {
        Some(TokenKind::Semicolon)
    } else if c == '*' {
        Some(TokenKind::Star)
    } else {
        None
    }
}

/// The two kinds of token that start with one character: the character
/// alone, and the character followed by `=`.
pub struct Paired {
    pub alone: TokenKind,
    pub followed: TokenKind,
}

/// For the four characters that may be followed by `=` to make another
/// token: the kind without and the kind with the `=`.
pub open spec fn paired_kind(c: char) -> Option<Paired> {
    if c == '!' {
        Some(Paired { alone: TokenKind::Bang, followed: TokenKind::BangEqual })
    } else if c == '=' {
        Some(Paired { alone: TokenKind::Equal, followed: TokenKind::EqualEqual })
    } else if c == '<' {
        Some(Paired { alone: TokenKind::Less, followed: TokenKind::LessEqual })
    } else if c == '>' {
        Some(Paired { alone: TokenKind::Greater, followed: TokenKind::GreaterEqual })
    } else {
        None
    }
}

/// Whether the character at `pos` is `c`.
pub open spec fn at(source: Seq<char>, pos: int, c: char) -> bool {
    0 <= pos < source.len() && source[pos] == c
}

/// The number of characters of the numeral that starts at `pos`: digits,
/// and then a `.` with the digits after it if at least one digit follows
/// the `.`.
pub open spec fn numeral_length(source: Seq<char>, pos: int) -> nat {
    let whole = run(source, pos, Class::Digit);
    if at(source, pos + whole, '.') && pos + whole + 1 < source.len() && is_digit(
        source[pos + whole + 1],
    ) {
        whole + 1 + run(source, pos + whole + 1, Class::Digit)
    } else {
        whole
    }
}

/// What the scanner makes of the input at one position.
pub struct Lexeme {
    /// The number of characters taken after the first.
    pub more: nat,
    /// The number of line ends among the characters taken.
    pub lines: nat,
    /// The kind of the token and its value, if the characters are a token.
    pub token: Option<(TokenKind, Option<LiteralView>)>,
    /// The complaint, if the characters are an error.
    pub error: Option<Seq<char>>,
}

/// A lexeme of `more + 1` characters that is a token without a value.
pub open spec fn plain(more: nat, kind: TokenKind) -> Lexeme {
    Lexeme { more, lines: 0, token: Some((kind, None)), error: None }
}

/// A lexeme of `more + 1` characters that is neither a token nor an error.
pub open spec fn skipped(more: nat, lines: nat) -> Lexeme {
    Lexeme { more, lines, token: None, error: None }
}

/// The lexeme that starts at `pos`, a position inside `source`.
///
/// * One of `( ) { } , . - + ; *` is a token.
/// * One of `! = < >` is a token, together with a `=` that follows it.
/// * `//` starts a comment, which ends before the end of the line; a `/`
///   alone is a token.
/// * A space, a tab and a carriage return are skipped, and so is the end of
///   a line.
/// * `"` starts a string, which ends with the next `"`. Its value is what
///   stands between the two. Without a second `"` the rest of the input is
///   an error.
/// * A digit starts a number. The token has no value yet: the numeral is
///   its lexeme.
/// * A letter or `_` starts a word, which goes on over letters, digits and
///   `_`, and is a keyword or an identifier.
/// * Any other character is an error.
pub open spec fn lexeme_at(source: Seq<char>, pos: int) -> Lexeme {
    let c = source[pos];
    if single_kind(c) is Some {
        plain(0, single_kind(c)->0)
    } else if paired_kind(c) is Some {
        if at(source, pos + 1, '=') {
            plain(1, paired_kind(c)->0.followed)
        } else {
            plain(0, paired_kind(c)->0.alone)
        }
    } else if c == '/' {
        if at(source, pos + 1, '/') {
            skipped(1 + run(source, pos + 2, Class::Comment), 0)
        } else {
            plain(0, TokenKind::Slash)
        }
    } else if c == ' ' || c == '\r' || c == '\t' {
        skipped(0, 0)
    } else if c == '\n' {
        skipped(0, 1)
    } else if c == '"' {
        let inside = run(source, pos + 1, Class::Quoted);
        let lines = newlines(source, pos + 1, pos + 1 + inside);
        if pos + 1 + inside < source.len() {
            Lexeme {
                more: inside + 1,
                lines,
                token: Some(
                    (
                        TokenKind::String,
                        Some(
                            LiteralView::String(
                                source.subrange(pos + 1, pos + 1 + inside),
                            ),
                        ),
                    ),
                ),
                error: None,
            }
        } else {
            Lexeme { more: inside, lines, token: None, error: Some("Unterminated string"@) }
        }
    } else if is_digit(c) {
        plain((numeral_length(source, pos) - 1) as nat, TokenKind::Number)
    } else if is_alpha(c) {
        let more = run(source, pos + 1, Class::Word);
        plain(more, word_kind(source.subrange(pos, pos + 1 + more)))
    } else {
        Lexeme { more: 0, lines: 0, token: None, error: Some("Unexpected character"@) }
    }
}

/// The number of characters from `pos` to the end.
pub open spec fn remaining(source: Seq<char>, pos: int) -> nat {
    if pos < source.len() {
        (source.len() - pos) as nat
    } else {
        0
    }
}

/// What scanning gives: the tokens and the errors, each in the order of the
/// input.
pub struct Scanned {
    pub tokens: Seq<TokenView>,
    pub errors: Seq<ScanErrorView>,
}

/// The token that ends every scan: `Eof`, with an empty lexeme.
pub open spec fn eof(line: nat) -> TokenView {
    TokenView { kind: TokenKind::Eof, lexeme: Seq::empty(), line, literal: None }
}

/// The tokens and errors of `source` from `pos` on, `line` being the line
/// of `pos`: those of the lexemes one after the other, and `Eof` at the
/// end. A token and an error carry the line on which their lexeme ends.
pub open spec fn scan(source: Seq<char>, pos: int, line: nat) -> Scanned
    decreases remaining(source, pos),
{
    if pos < 0 || pos >= source.len() {
        Scanned { tokens: seq![eof(line)], errors: Seq::empty() }
    } else {
        let lexeme = lexeme_at(source, pos);
        let end = pos + 1 + lexeme.more;
        let rest = scan(source, end, line + lexeme.lines);
        Scanned {
            tokens: match lexeme.token {
                Some((kind, literal)) => seq![
                    TokenView {
                        kind,
                        lexeme: source.subrange(pos, end),
                        line: line + lexeme.lines,
                        literal,
                    },
                ] + rest.tokens,
                None => rest.tokens,
            },
            errors: match lexeme.error {
                Some(message) => seq![ScanErrorView { line: line + lexeme.lines, message }]
                    + rest.errors,
                None => rest.errors,
            },
        }
    }
}

/// The state of a scanner.
pub struct ScannerView {
    pub source: Seq<char>,
    /// The position of the next character to read.
    pub current: int,
    /// The line of that position, counted from 1.
    pub line: nat,
    /// The tokens made so far.
    pub tokens: Seq<TokenView>,
    /// The errors found so far.
    pub errors: Seq<ScanErrorView>,
}

/// The state after the lexeme at the current position, which is inside the
/// source, has been scanned.
pub open spec fn after_lexeme(state: ScannerView) -> ScannerView {
    let lexeme = lexeme_at(state.source, state.current);
    let end = state.current + 1 + lexeme.more;
    let line = state.line + lexeme.lines;
    ScannerView {
        source: state.source,
        current: end,
        line,
        tokens: match lexeme.token {
            Some((kind, literal)) => state.tokens.push(
                TokenView { kind, lexeme: state.source.subrange(state.current, end), line, literal },
            ),
            None => state.tokens,
        },
        errors: match lexeme.error {
            Some(message) => state.errors.push(ScanErrorView { line, message }),
            None => state.errors,
        },
    }
}

/// A run ends inside the source or at its end.
pub proof fn run_stays_inside(source: Seq<char>, pos: int, class: Class)
    requires
        0 <= pos <= source.len(),
    ensures
        pos + run(source, pos, class) <= source.len(),
        pos + run(source, pos, class) < source.len() ==> !in_class(
            class,
            source[pos + run(source, pos, class)],
        ),
    decreases source.len() - pos,
{
    if pos < source.len() && in_class(class, source[pos]) {
        run_stays_inside(source, pos + 1, class);
    }
}

/// A lexeme ends inside the source or at its end, and has no more line ends
/// than characters.
pub proof fn lexeme_stays_inside(source: Seq<char>, pos: int)
    requires
        0 <= pos < source.len(),
    ensures
        pos + 1 + lexeme_at(source, pos).more <= source.len(),
        lexeme_at(source, pos).lines <= 1 + lexeme_at(source, pos).more,
{
    run_stays_inside(source, pos + 1, Class::Comment);
    if pos + 2 <= source.len() {
        run_stays_inside(source, pos + 2, Class::Comment);
    }
    run_stays_inside(source, pos + 1, Class::Quoted);
    run_stays_inside(source, pos + 1, Class::Word);
    run_stays_inside(source, pos, Class::Digit);
    let whole = run(source, pos, Class::Digit);
    if pos + whole + 1 < source.len() {
        run_stays_inside(source, pos + whole + 1, Class::Digit);
    }
    let inside = run(source, pos + 1, Class::Quoted);
    newlines_bounded(source, pos + 1, pos + 1 + inside);
}

/// There are no more line ends than characters.
pub proof fn newlines_bounded(source: Seq<char>, from: int, to: int)
    ensures
        to <= from ==> newlines(source, from, to) == 0,
        to > from ==> newlines(source, from, to) <= to - from,
    decreases to - from,
{
    if !(to <= from || from < 0 || to > source.len()) {
        newlines_bounded(source, from, to - 1);
        assert(newlines(source, from, to - 1) <= to - 1 - from);
    }
}

fn is_digit_char(c: char) -> (r: bool)
    ensures
        r == is_digit(c),
{
    '0' <= c && c <= '9'
}

fn is_alpha_char(c: char) -> (r: bool)
    ensures
        r == is_alpha(c),
{
    ('a' <= c && c <= 'z') || ('A' <= c && c <= 'Z') || c == '_'
}

fn belongs(class: &Class, c: char) -> (r: bool)
    ensures
        r == in_class(*class, c),
{
    match class {
        Class::Digit => is_digit_char(c),
        Class::Word => is_alpha_char(c) || is_digit_char(c),
        Class::Comment => c != '\n',
        Class::Quoted => c != '"',
    }
}

fn single(c: char) -> (kind: Option<TokenKind>)
    ensures
        kind == single_kind(c),
{
    if c == '(' {
        Some(TokenKind::LeftParen)
    } else if c == ')' {
        Some(TokenKind::RightParen)
    } else if c == '{' {
        Some(TokenKind::LeftBrace)
    } else if c == '}' {
        Some(TokenKind::RightBrace)
    } else if c == ',' {
        Some(TokenKind::Comma)
    } else if c == '.' {
        Some(TokenKind::Dot)
    } else if c == '-' {
        Some(TokenKind::Minus)
    } else if c == '+' {
        Some(TokenKind::Plus)
    } else if c == ';' {
        Some(TokenKind::Semicolon)
    } else if c == '*' {
        Some(TokenKind::Star)
    } else {
        None
    }
}

fn paired(c: char) -> (kinds: Option<Paired>)
    ensures
        kinds == paired_kind(c),
{
    if c == '!' {
        Some(Paired { alone: TokenKind::Bang, followed: TokenKind::BangEqual })
    } else if c == '=' {
        Some(Paired { alone: TokenKind::Equal, followed: TokenKind::EqualEqual })
    } else if c == '<' {
        Some(Paired { alone: TokenKind::Less, followed: TokenKind::LessEqual })
    } else if c == '>' {
        Some(Paired { alone: TokenKind::Greater, followed: TokenKind::GreaterEqual })
    } else {
        None
    }
}

fn keyword_or_identifier(word: &String) -> (kind: TokenKind)
    ensures
        kind == word_kind(word@),
{
    if *word == String::from_str("and") {
        TokenKind::And
    } else if *word == String::from_str("class") {
        TokenKind::Class
    } else if *word == String::from_str("else") {
        TokenKind::Else
    } else if *word == String::from_str("false") {
        TokenKind::False
    } else if *word == String::from_str("for") {
        TokenKind::For
    } else if *word == String::from_str("fun") {
        TokenKind::Fun
    } else if *word == String::from_str("if") {
        TokenKind::If
    } else if *word == String::from_str("nil") {
        TokenKind::Nil
    } else if *word == String::from_str("or") {
        TokenKind::Or
    } else if *word == String::from_str("print") {
        TokenKind::Print
    } else if *word == String::from_str("return") {
        TokenKind::Return
    } else if *word == String::from_str("super") {
        TokenKind::Super
    } else if *word == String::from_str("this") {
        TokenKind::This
    } else if *word == String::from_str("true") {
        TokenKind::True
    } else if *word == String::from_str("var") {
        TokenKind::Var
    } else if *word == String::from_str("while") {
        TokenKind::While
    } else {
        TokenKind::Identifier
    }
}

/// The scanner.
pub struct Scanner {
    source: Vec<char>,
    tokens: Vec<Token>,
    errors: Vec<ScanError>,
    current: usize,
    line: usize,
}

impl View for Scanner {
    type V = ScannerView;

    closed spec fn view(&self) -> ScannerView {
        ScannerView {
            source: self.source@,
            current: self.current as int,
            line: self.line as nat,
            tokens: token_views(self.tokens@),
            errors: scan_error_views(self.errors@),
        }
    }
}

/// What holds of every scanner: the position is inside the source or at
/// its end, and there are no more lines than characters read.
pub open spec fn is_scanning(state: ScannerView) -> bool {
    &&& 0 <= state.current <= state.source.len()
    &&& state.source.len() < usize::MAX
    &&& 1 <= state.line <= state.current + 1
}

impl Scanner {
    /// A scanner at the start of `source`, on line 1.
    pub fn new(source: &String) -> (scanner: Self)
        requires
            source@.len() < usize::MAX,
        ensures
            scanner@ == (ScannerView {
                source: source@,
                current: 0,
                line: 1,
                tokens: Seq::empty(),
                errors: Seq::empty(),
            }),
            is_scanning(scanner@),
    {
        let scanner = Scanner {
            source: chars_of(source.as_str()),
            tokens: Vec::new(),
            errors: Vec::new(),
            current: 0,
            line: 1,
        };
        assert(scanner@.tokens =~= Seq::empty());
        assert(scanner@.errors =~= Seq::empty());
        scanner
    }

    /// Whether all of the source has been read.
    pub fn is_at_end(&self) -> (r: bool)
        ensures
            r == (self@.current >= self@.source.len()),
    {
        self.current >= self.source.len()
    }

    /// The errors found so far.
    pub fn errors(&self) -> (errors: &Vec<ScanError>)
        ensures
            scan_error_views(errors@) == self@.errors,
    {
        &self.errors
    }

    /// Reads one character.
    pub fn advance(&mut self) -> (c: char)
        requires
            is_scanning(old(self)@),
            old(self)@.current < old(self)@.source.len(),
        ensures
            c == old(self)@.source[old(self)@.current],
            final(self)@ == (ScannerView { current: old(self)@.current + 1, ..old(self)@ }),
            is_scanning(final(self)@),
    {
        let c = self.source[self.current];
        self.current += 1;
        c
    }

    /// The length of the run of `class` that starts at `from`.
    fn run_length(&self, from: usize, class: Class) -> (n: usize)
        requires
            from <= self.source.len(),
        ensures
            n == run(self.source@, from as int, class),
            from + n <= self.source.len(),
    {
        let mut i: usize = from;
        while i < self.source.len() && belongs(&class, self.source[i])
            invariant
                from <= i <= self.source.len(),
                run(self.source@, from as int, class) == (i - from) + run(
                    self.source@,
                    i as int,
                    class,
                ),
            decreases self.source.len() - i,
        {
            i += 1;
        }
        i - from
    }

    /// The number of line ends from `from` up to `to`.
    fn count_newlines(&self, from: usize, to: usize) -> (n: usize)
        requires
            from <= to <= self.source.len(),
        ensures
            n == newlines(self.source@, from as int, to as int),
            n <= to - from,
    {
        let mut i: usize = from;
        let mut n: usize = 0;
        while i < to
            invariant
                from <= i <= to <= self.source.len(),
                n == newlines(self.source@, from as int, i as int),
                n <= i - from,
            decreases to - i,
        {
            if self.source[i] == '\n' {
                n += 1;
            }
            i += 1;
        }
        n
    }

    /// Whether the character at `pos` is `c`.
    fn has(&self, pos: usize, c: char) -> (r: bool)
        ensures
            r == at(self.source@, pos as int, c),
    {
        pos < self.source.len() && self.source[pos] == c
    }

    /// The characters from `from` up to `to` as a string.
    fn text(&self, from: usize, to: usize) -> (text: String)
        requires
            from <= to <= self.source.len(),
        ensures
            text@ == self.source@.subrange(from as int, to as int),
    {
        let mut text = String::new();
        let mut i: usize = from;
        while i < to
            invariant
                from <= i <= to <= self.source.len(),
                text@ == self.source@.subrange(from as int, i as int),
            decreases to - i,
        {
            text.push(self.source[i]);
            i += 1;
            assert(text@ =~= self.source@.subrange(from as int, i as int));
        }
        text
    }

    /// Adds the token of `kind` whose lexeme runs from `from` up to the
    /// current position.
    fn add_token(&mut self, kind: TokenKind, from: usize, literal: Option<Literal>)
        requires
            from <= old(self).current <= old(self).source.len(),
        ensures
            final(self)@ == (ScannerView {
                tokens: old(self)@.tokens.push(
                    TokenView {
                        kind,
                        lexeme: old(self)@.source.subrange(from as int, old(self)@.current),
                        line: old(self)@.line,
                        literal: match literal {
                            Some(value) => Some(value@),
                            None => None,
                        },
                    },
                ),
                ..old(self)@
            }),
    {
        let lexeme = self.text(from, self.current);
        let token = Token { kind, lexeme, line: self.line, literal };
        self.tokens.push(token);
        assert(self@.tokens =~= old(self)@.tokens.push(token@));
    }

    /// Adds an error on the current line.
    fn add_error(&mut self, message: &str)
        ensures
            final(self)@ == (ScannerView {
                errors: old(self)@.errors.push(
                    ScanErrorView { line: old(self)@.line, message: message@ },
                ),
                ..old(self)@
            }),
    {
        let error = ScanError { line: self.line, message: String::from_str(message) };
        self.errors.push(error);
        assert(self@.errors =~= old(self)@.errors.push(error@));
    }

    /// Scans the lexeme at the current position. At the end of the source
    /// nothing happens.
    pub fn scan_token(&mut self)
        requires
            is_scanning(old(self)@),
        ensures
            is_scanning(final(self)@),
            final(self)@ == if old(self)@.current < old(self)@.source.len() {
                after_lexeme(old(self)@)
            } else {
                old(self)@
            },
    {
        if self.current >= self.source.len() {
            return ;
        }
        proof {
            lexeme_stays_inside(self.source@, self.current as int);
        }
        let start: usize = self.current;
        let c = self.source[start];
        if let Some(kind) = single(c) {
            self.current = start + 1;
            self.add_token(kind, start, None);
        } else if let Some(kinds) = paired(c) {
            if self.has(start + 1, '=') {
                self.current = start + 2;
                self.add_token(kinds.followed, start, None);
            } else {
                self.current = start + 1;
                self.add_token(kinds.alone, start, None);
            }
        } else if c == '/' {
            if self.has(start + 1, '/') {
                let length = self.run_length(start + 2, Class::Comment);
                self.current = start + 2 + length;
            } else {
                self.current = start + 1;
                self.add_token(TokenKind::Slash, start, None);
            }
        } else if c == ' ' || c == '\r' || c == '\t' {
            self.current = start + 1;
        } else if c == '\n' {
            self.current = start + 1;
            self.line += 1;
        } else if c == '"' {
            let inside = self.run_length(start + 1, Class::Quoted);
            let lines = self.count_newlines(start + 1, start + 1 + inside);
            self.line += lines;
            if start + 1 + inside < self.source.len() {
                self.current = start + 2 + inside;
                let value = self.text(start + 1, start + 1 + inside);
                self.add_token(TokenKind::String, start, Some(Literal::String(value)));
            } else {
                self.current = start + 1 + inside;
                self.add_error("Unterminated string");
            }
        } else if is_digit_char(c) {
            let whole = self.run_length(start, Class::Digit);
            let mut length: usize = whole;
            if self.has(start + whole, '.') && start + whole + 1 < self.source.len()
                && is_digit_char(self.source[start + whole + 1]) {
                proof {
                    run_stays_inside(self.source@, start + whole + 1, Class::Digit);
                }
                length = whole + 1 + self.run_length(start + whole + 1, Class::Digit);
            }
            self.current = start + length;
            self.add_token(TokenKind::Number, start, None);
        } else if is_alpha_char(c) {
            let more = self.run_length(start + 1, Class::Word);
            self.current = start + 1 + more;
            let word = self.text(start, self.current);
            self.add_token(keyword_or_identifier(&word), start, None);
        } else {
            self.current = start + 1;
            self.add_error("Unexpected character");
        }
    }

    /// Scans the rest of the source and hands out all tokens made, with
    /// `Eof` after the last. The scanner keeps the errors and is left
    /// without tokens.
    pub fn scan_tokens(&mut self) -> (tokens: Vec<Token>)
        requires
            is_scanning(old(self)@),
        ensures
            is_scanning(final(self)@),
            token_views(tokens@) == old(self)@.tokens + scan(
                old(self)@.source,
                old(self)@.current,
                old(self)@.line,
            ).tokens,
            final(self)@.errors == old(self)@.errors + scan(
                old(self)@.source,
                old(self)@.current,
                old(self)@.line,
            ).errors,
            final(self)@.source == old(self)@.source,
            final(self)@.current == old(self)@.source.len(),
            final(self)@.tokens == Seq::<TokenView>::empty(),
            token_views(tokens@).len() > 0,
            token_views(tokens@).last().kind == TokenKind::Eof,
    {
        while self.current < self.source.len()
            invariant
                is_scanning(self@),
                self@.source == old(self)@.source,
                self@.tokens + scan(self@.source, self@.current, self@.line).tokens == old(
                    self,
                )@.tokens + scan(old(self)@.source, old(self)@.current, old(self)@.line).tokens,
                self@.errors + scan(self@.source, self@.current, self@.line).errors == old(
                    self,
                )@.errors + scan(old(self)@.source, old(self)@.current, old(self)@.line).errors,
            decreases self.source.len() - self.current,
        {
            let ghost before = self@;
            self.scan_token();
            proof {
                let lexeme = lexeme_at(before.source, before.current);
                let rest = scan(self@.source, self@.current, self@.line);
                let all = scan(before.source, before.current, before.line);
                assert(before.tokens + all.tokens =~= self@.tokens + rest.tokens);
                assert(before.errors + all.errors =~= self@.errors + rest.errors);
            }
        }
        let end = Token {
            kind: TokenKind::Eof,
            lexeme: String::new(),
            line: self.line,
            literal: None,
        };
        let ghost made = self@.tokens;
        self.tokens.push(end);
        let mut tokens: Vec<Token> = Vec::new();
        core::mem::swap(&mut self.tokens, &mut tokens);
        proof {
            assert(token_views(tokens@) =~= made.push(end@));
            assert(made.push(end@) =~= made + scan(
                self@.source,
                self@.current,
                self@.line,
            ).tokens);
            assert(self@.tokens =~= Seq::<TokenView>::empty());
            assert(self@.errors + Seq::<ScanErrorView>::empty() =~= self@.errors);
        }
        tokens
    }
}

/// Scanning gives a token stream: `Eof` is the last token and no other.
pub proof fn scan_ends_with_eof(source: Seq<char>, pos: int, line: nat)
    ensures
        scan(source, pos, line).tokens.len() >= 1,
        scan(source, pos, line).tokens.last().kind == TokenKind::Eof,
        forall|i: int|
            0 <= i < scan(source, pos, line).tokens.len() - 1 ==> (#[trigger] scan(
                source,
                pos,
                line,
            ).tokens[i]).kind != TokenKind::Eof,
    decreases remaining(source, pos),
{
    if !(pos < 0 || pos >= source.len()) {
        let lexeme = lexeme_at(source, pos);
        scan_ends_with_eof(source, pos + 1 + lexeme.more, line + lexeme.lines);
    }
}

/// Whether `text` is a numeral: digits, or digits, `.` and digits, with at
/// least one digit in each place. `point` is the number of digits before
/// the `.`, or the length of a numeral without one.
pub open spec fn is_numeral(text: Seq<char>, point: int) -> bool {
    &&& 0 < point <= text.len()
    &&& forall|i: int| 0 <= i < text.len() && i != point ==> is_digit(#[trigger] text[i])
    &&& point < text.len() ==> text[point] == '.' && point + 1 < text.len()
}

/// A run of a class is as long as the stretch of characters of the class
/// that ends before a character of another class or at the end.
pub proof fn run_is_stretch(source: Seq<char>, from: int, to: int, class: Class)
    requires
        0 <= from <= to <= source.len(),
        forall|i: int| from <= i < to ==> in_class(class, #[trigger] source[i]),
        to < source.len() ==> !in_class(class, source[to]),
    ensures
        run(source, from, class) == to - from,
    decreases to - from,
{
    if from < to {
        run_is_stretch(source, from + 1, to, class);
    }
}

/// A numeral is one token: scanned by itself it gives one number token,
/// whose lexeme is the numeral, and no error. So the printed form of a
/// number, where it is a numeral, is read back as one number.
pub proof fn numeral_is_one_token(text: Seq<char>, point: int, line: nat)
    requires
        is_numeral(text, point),
    ensures
        scan(text, 0, line).tokens == seq![
            TokenView { kind: TokenKind::Number, lexeme: text, line, literal: None },
            eof(line),
        ],
        scan(text, 0, line).errors == Seq::<ScanErrorView>::empty(),
{
    run_is_stretch(text, 0, point, Class::Digit);
    if point < text.len() {
        run_is_stretch(text, point + 1, text.len() as int, Class::Digit);
    }
    assert(numeral_length(text, 0) == text.len());
    assert(is_digit(text[0]));
    let lexeme = lexeme_at(text, 0);
    assert(lexeme == plain((text.len() - 1) as nat, TokenKind::Number));
    assert(text.subrange(0, text.len() as int) =~= text);
    let rest = scan(text, text.len() as int, line);
    assert(rest.tokens == seq![eof(line)]);
    assert(scan(text, 0, line).tokens =~= seq![
        TokenView { kind: TokenKind::Number, lexeme: text, line, literal: None },
        eof(line),
    ]);
}

} // verus!
