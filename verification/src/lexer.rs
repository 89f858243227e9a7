//! The TBX lexer: converts source text into a stream of spanned tokens.
use vstd::prelude::*;
use crate::error::TbxError;
use crate::text::{utf8_seq_len, lemma_utf8_seq_len_split, 
    all_digits, char_is_alphabetic, char_is_alphanumeric, char_utf8_len, chars_to_string,
    digits_value, is_ascii_digit, is_digit_spec, parse_digits_i64, str_to_chars,
    unicode_alphabetic, unicode_alphanumeric, utf8_len,
};

verus! {

// TOKEN kind codes.
pub const TOK_ID: i64 = 0;
pub const TOK_NUM: i64 = 1;
pub const TOK_OP: i64 = 2;
pub const TOK_DELIM: i64 = 3;
pub const TOK_STR: i64 = 4;

/// Lexical token produced by the TBX lexer.
#[derive(Debug, Clone, PartialEq)]
pub enum Token {
    /// Identifier — word name or variable name.
    Ident(String),
    /// Integer literal.
    IntLit(i64),
    /// Floating-point literal, kept as its source text.
    FloatLit(String),
    /// String literal with escape sequences already expanded.
    StringLit(String),
    /// Operator: `+ - * / % = <> < > <= >= | || && !`.
    Op(String),
    /// Comma `,`.
    Comma,
    /// Semicolon `;`: statement separator.
    Semicolon,
    /// Ampersand `&`: address-of or bitwise AND.
    Ampersand,
    /// `(`
    LParen,
    /// `)`
    RParen,
    /// `[`
    LBracket,
    /// `]`
    RBracket,
    /// `@` array binding sigil.
    At,
    /// `...` in a variadic parameter list.
    Ellipsis,
    /// Integer label at the start of a statement.
    LineNum(i64),
    /// Line terminator.
    Newline,
    /// End of input.
    Eof,
    /// Lexer error (e.g. unterminated string literal).
    Error(String),
}

/// The TOKEN kind code of a token, if it has one.
pub open spec fn kind_code_of(t: Token) -> Option<i64> {
    match t {
        Token::Ident(_) => Some(TOK_ID),
        Token::IntLit(_) | Token::FloatLit(_) => Some(TOK_NUM),
        Token::Op(_) | Token::Comma | Token::Ampersand | Token::LParen | Token::RParen
        | Token::LBracket | Token::RBracket | Token::At | Token::Ellipsis => Some(TOK_OP),
        Token::Semicolon => Some(TOK_DELIM),
        Token::StringLit(_) => Some(TOK_STR),
        Token::LineNum(_) | Token::Newline | Token::Eof | Token::Error(_) => None,
    }
}

impl Token {
    /// Returns the TOKEN kind code; `None` for outer-interpreter-only tokens.
    pub fn kind_code(&self) -> (r: Option<i64>)
        ensures
            r == kind_code_of(*self),
    {
        match self {
            Token::Ident(_) => Some(TOK_ID),
            Token::IntLit(_) | Token::FloatLit(_) => Some(TOK_NUM),
            Token::Op(_) | Token::Comma | Token::Ampersand | Token::LParen | Token::RParen
            | Token::LBracket | Token::RBracket | Token::At | Token::Ellipsis => Some(TOK_OP),
            Token::Semicolon => Some(TOK_DELIM),
            Token::StringLit(_) => Some(TOK_STR),
            Token::LineNum(_) | Token::Newline | Token::Eof | Token::Error(_) => None,
        }
    }

    /// An exact copy of this token.
    pub fn dup(&self) -> (r: Token)
        ensures
            r == *self,
    {
        match self {
            Token::Ident(s) => Token::Ident(s.clone()),
            Token::IntLit(n) => Token::IntLit(*n),
            Token::FloatLit(s) => Token::FloatLit(s.clone()),
            Token::StringLit(s) => Token::StringLit(s.clone()),
            Token::Op(s) => Token::Op(s.clone()),
            Token::Comma => Token::Comma,
            Token::Semicolon => Token::Semicolon,
            Token::Ampersand => Token::Ampersand,
            Token::LParen => Token::LParen,
            Token::RParen => Token::RParen,
            Token::LBracket => Token::LBracket,
            Token::RBracket => Token::RBracket,
            Token::At => Token::At,
            Token::Ellipsis => Token::Ellipsis,
            Token::LineNum(n) => Token::LineNum(*n),
            Token::Newline => Token::Newline,
            Token::Eof => Token::Eof,
            Token::Error(s) => Token::Error(s.clone()),
        }
    }
}

/// Source position (1-based line and column numbers).
#[derive(Debug, Clone, PartialEq, Eq)]
pub struct Position {
    /// Line number, starting at 1.
    pub line: usize,
    /// Column number (character index within the line), starting at 1.
    pub col: usize,
}

impl Position {
    pub fn new(line: usize, col: usize) -> (r: Self)
        ensures
            r.line == line,
            r.col == col,
    {
        Position { line, col }
    }
}

/// A token together with its source location and raw-text extents.
///
/// `source_offset`/`source_len` are byte offsets into the source string;
/// `char_start`/`char_end` delimit the raw text by character index.
#[derive(Debug, Clone, PartialEq)]
pub struct SpannedToken {
    pub token: Token,
    /// Position of the first character of the token.
    pub pos: Position,
    /// Byte offset of the first character of the raw token text.
    pub source_offset: usize,
    /// Byte length of the raw token text.
    pub source_len: usize,
    /// Character index of the first character of the raw token text.
    pub char_start: usize,
    /// Character index just after the raw token text.
    pub char_end: usize,
}

impl SpannedToken {
    /// An exact copy of this spanned token.
    pub fn dup(&self) -> (r: SpannedToken)
        ensures
            r == *self,
    {
        SpannedToken {
            token: self.token.dup(),
            pos: Position { line: self.pos.line, col: self.pos.col },
            source_offset: self.source_offset,
            source_len: self.source_len,
            char_start: self.char_start,
            char_end: self.char_end,
        }
    }
}

/// Number of UTF-8 bytes of a character sequence.
pub open spec fn utf8_bytes(s: Seq<char>) -> nat
    decreases s.len(),
{
    if s.len() == 0 {
        0
    } else {
        utf8_bytes(s.drop_last()) + utf8_len(s.last())
    }
}

/// A character that may continue an identifier.
pub open spec fn ident_char(c: char) -> bool {
    unicode_alphanumeric(c) || c == '_'
}

/// A character that may start an identifier.
pub open spec fn ident_start(c: char) -> bool {
    unicode_alphabetic(c) || c == '_'
}

/// Index just after the identifier that starts at `i`: the first index at
/// or after `i + 1` whose character cannot continue an identifier.
pub open spec fn ident_end(s: Seq<char>, i: int, e: int) -> bool {
    &&& i < e <= s.len()
    &&& forall|k: int| i < k < e ==> #[trigger] ident_char(s[k])
    &&& (e == s.len() || !ident_char(s[e]))
}

/// Index just after the run of decimal digits that starts at `i`.
pub open spec fn digits_end(s: Seq<char>, i: int, e: int) -> bool {
    &&& i <= e <= s.len()
    &&& forall|k: int| i <= k < e ==> #[trigger] is_digit_spec(s[k])
    &&& (e == s.len() || !is_digit_spec(s[e]))
}

/// The spelling of a punctuation token.
pub open spec fn punct_spelling(t: Token) -> Option<Seq<char>> {
    match t {
        Token::Comma => Some(seq![',']),
        Token::Semicolon => Some(seq![';']),
        Token::LParen => Some(seq!['(']),
        Token::RParen => Some(seq![')']),
        Token::LBracket => Some(seq!['[']),
        Token::RBracket => Some(seq![']']),
        Token::At => Some(seq!['@']),
        Token::Ampersand => Some(seq!['&']),
        Token::Ellipsis => Some(seq!['.', '.', '.']),
        _ => None,
    }
}

/// The spellings of the operators.
pub open spec fn op_spelling(s: Seq<char>) -> bool {
    ||| s == seq!['+'] || s == seq!['-'] || s == seq!['*'] || s == seq!['/'] || s == seq!['%']
    ||| s == seq!['='] || s == seq!['!'] || s == seq!['<'] || s == seq!['>'] || s == seq!['|']
    ||| s == seq!['<', '>'] || s == seq!['<', '='] || s == seq!['>', '='] || s == seq!['&', '&']
    ||| s == seq!['|', '|']
}

/// The longest spelling wins: a one-character `<`, `>`, `&` or `|` is not
/// followed by a character that would make a two-character operator.
pub open spec fn longest_match(text: Seq<char>, start: int, end: int) -> bool {
    let next = if end < text.len() { Some(text[end]) } else { None::<char> };
    end == start + 1 ==> {
        &&& (text[start] == '<' ==> next != Some('>') && next != Some('='))
        &&& (text[start] == '>' ==> next != Some('='))
        &&& (text[start] == '&' ==> next != Some('&'))
        &&& (text[start] == '|' ==> next != Some('|'))
    }
}

/// The characters a string-literal escape `\e` stands for (`\n`, `\t`,
/// `\\`, `\"`); any other escape keeps the backslash and the character.
pub open spec fn escape_value(e: char) -> Seq<char> {
    if e == 'n' {
        seq!['\n']
    } else if e == 't' {
        seq!['\t']
    } else if e == '\\' {
        seq!['\\']
    } else if e == '"' {
        seq!['"']
    } else {
        seq!['\\', e]
    }
}

/// The body of a string literal from index `i` of `text` (just after the
/// opening quote): its decoded characters and the index after the closing
/// quote, or `None` when a line end or the end of the text comes first.
pub open spec fn string_body(text: Seq<char>, i: int) -> Option<(Seq<char>, int)>
    decreases text.len() - i,
{
    if i < 0 || i >= text.len() {
        None
    } else {
        let c = text[i];
        if c == '\n' || c == '\r' {
            None
        } else if c == '"' {
            Some((Seq::empty(), i + 1))
        } else if c == '\\' {
            if i + 1 >= text.len() {
                None
            } else {
                match string_body(text, i + 2) {
                    Some((rest, end)) => Some((escape_value(text[i + 1]) + rest, end)),
                    None => None,
                }
            }
        } else {
            match string_body(text, i + 1) {
                Some((rest, end)) => Some((seq![c] + rest, end)),
                None => None,
            }
        }
    }
}

/// An integer literal ending at `e` is complete: no digit follows, nor a
/// `.` and a digit (which would make it a decimal fraction).
pub open spec fn number_end(text: Seq<char>, e: int) -> bool {
    &&& (e >= text.len() || !is_digit_spec(text[e]))
    &&& !(e + 1 < text.len() && text[e] == '.' && is_digit_spec(text[e + 1]))
}

/// A punctuation or operator token starts at `i`: one of `, ; ( ) [ ] @ +
/// * / % = - ! & | < >`, or `...`.
pub open spec fn symbol_at(text: Seq<char>, i: int) -> bool {
    0 <= i < text.len() && {
        let c = text[i];
        ||| c == ',' || c == ';' || c == '(' || c == ')' || c == '[' || c == ']' || c == '@'
        ||| c == '+' || c == '*' || c == '/' || c == '%' || c == '=' || c == '-' || c == '!'
        ||| c == '&' || c == '|' || c == '<' || c == '>'
        ||| c == '.' && i + 2 < text.len() && text[i + 1] == '.' && text[i + 2] == '.'
    }
}

/// The length of the longest punctuation or operator spelling at `i`.
pub open spec fn symbol_len(text: Seq<char>, i: int) -> int {
    let c = text[i];
    let n = if i + 1 < text.len() { Some(text[i + 1]) } else { None::<char> };
    if c == '.' {
        3
    } else if (c == '&' && n == Some('&')) || (c == '|' && n == Some('|')) || (c == '<' && (n == Some('>') || n
        == Some('='))) || (c == '>' && n == Some('=')) {
        2
    } else {
        1
    }
}

/// What a token says about the raw text it was scanned from.
pub open spec fn token_facts(t: SpannedToken, text: Seq<char>) -> bool {
    &&& t.char_start <= t.char_end <= text.len()
    &&& t.source_len == utf8_seq_len(text.subrange(t.char_start as int, t.char_end as int))
    &&& (t.token matches Token::Ident(name) ==> {
        &&& name@ == text.subrange(t.char_start as int, t.char_end as int)
        &&& ident_start(text[t.char_start as int])
        &&& ident_end(text, t.char_start as int, t.char_end as int)
    })
    &&& (t.token matches Token::IntLit(v) ==> {
        let raw = text.subrange(t.char_start as int, t.char_end as int);
        &&& all_digits(raw)
        &&& v as int == digits_value(raw)
    })
    &&& (t.token matches Token::LineNum(v) ==> {
        let raw = text.subrange(t.char_start as int, t.char_end as int);
        &&& all_digits(raw)
        &&& v as int == digits_value(raw)
    })
    &&& (t.token matches Token::Op(o) ==> {
        &&& o@ == text.subrange(t.char_start as int, t.char_end as int)
        &&& op_spelling(o@)
        &&& longest_match(text, t.char_start as int, t.char_end as int)
    })
    &&& (punct_spelling(t.token) matches Some(sp) ==> {
        &&& sp == text.subrange(t.char_start as int, t.char_end as int)
        &&& longest_match(text, t.char_start as int, t.char_end as int)
    })
    &&& (t.token is IntLit || t.token is LineNum ==> number_end(text, t.char_end as int))
    &&& (t.token is Error ==> t.char_start < text.len() && !symbol_at(text, t.char_start as int))
    &&& (t.token matches Token::StringLit(v) ==> {
        &&& t.char_start < text.len()
        &&& text[t.char_start as int] == '"'
        &&& string_body(text, t.char_start + 1) == Some((v@, t.char_end as int))
    })
}

/// The kind of a token is fixed by the character it starts at: a line
/// break gives `Newline`, `"` a string literal (or an error when it is not
/// closed), a digit a number (or an error), an ASCII letter or `_` an
/// identifier,
/// and an operator or punctuation character never an error; the end of the
/// text gives `Eof`.
pub open spec fn start_kind(t: SpannedToken, text: Seq<char>) -> bool {
    if t.char_start >= text.len() {
        t.token is Eof
    } else {
        let c = text[t.char_start as int];
        &&& ((c == '\n' || c == '\r') <==> t.token is Newline)
        &&& !(t.token is Eof)
        &&& (c == '"' ==> (t.token is StringLit || t.token is Error))
        &&& (is_digit_spec(c) ==> (t.token is IntLit || t.token is LineNum || t.token is FloatLit || t.token is Error))
        &&& (('a' <= c <= 'z' || 'A' <= c <= 'Z' || c == '_') ==> t.token is Ident)
        &&& (symbol_at(text, t.char_start as int) ==> !(t.token is Error))
    }
}

/// The TBX lexer.
pub struct Lexer {
    source: String,
    chars: Vec<char>,
    pos: usize,
    byte_off: usize,
    line: usize,
    col: usize,
    at_line_start: bool,
    rem_pending: bool,
    peeked: Option<SpannedToken>,
}

/// Largest source length (in characters) the lexer accepts: a machine
/// limit, so that byte offsets (at most four bytes a character) fit in a
/// `usize`.
pub const MAX_SOURCE_CHARS: usize = usize::MAX / 4;

impl Lexer {
    /// The characters being scanned.
    pub closed spec fn text(self) -> Seq<char> {
        self.chars@
    }

    /// Index of the next character to scan.
    pub closed spec fn cursor(self) -> nat {
        self.pos as nat
    }

    /// Current line number.
    pub closed spec fn line_no(self) -> nat {
        self.line as nat
    }

    /// Current column number.
    pub closed spec fn col_no(self) -> nat {
        self.col as nat
    }

    /// The token held back by `peek_token`, if any.
    pub closed spec fn held(self) -> Option<SpannedToken> {
        self.peeked
    }

    /// Whether the rest of the line is a `REM` comment still to be skipped.
    pub closed spec fn comment_pending(self) -> bool {
        self.rem_pending
    }

    /// A measure that every non-`Eof` token strictly decreases.
    pub closed spec fn remaining(self) -> nat {
        (3 * (self.chars@.len() - self.pos) + (if self.rem_pending { 1int } else { 0 }) + (if self.peeked is Some {
            1int
        } else {
            0
        })) as nat
    }

    /// Internal consistency of the lexer state.
    pub closed spec fn wf(self) -> bool {
        &&& self.pos <= self.chars@.len()
        &&& self.source@ == self.chars@
        &&& self.chars@.len() <= MAX_SOURCE_CHARS
        &&& self.byte_off <= 4 * self.pos
        &&& self.byte_off == utf8_seq_len(self.chars@.take(self.pos as int))
        &&& 1 <= self.line <= self.pos + 1
        &&& 1 <= self.col <= self.pos + 1
        &&& (self.peeked matches Some(t) ==> t.char_end <= self.pos && t.char_start <= t.char_end
            && token_facts(t, self.chars@))
        &&& (self.peeked matches Some(t) ==> (t.token is Eof ==> self.pos == self.chars@.len()
            && !self.rem_pending))
    }

    /// Create a new lexer for the given source string.
    pub fn new(source: &str) -> (r: Self)
        requires
            source@.len() <= MAX_SOURCE_CHARS,
        ensures
            r.wf(),
            r.text() == source@,
            r.cursor() == 0,
            r.remaining() == 3 * source@.len(),
    {
        Lexer {
            source: source.to_owned(),
            chars: str_to_chars(source),
            pos: 0,
            byte_off: 0,
            line: 1,
            col: 1,
            at_line_start: true,
            rem_pending: false,
            peeked: None,
        }
    }

    /// Return the source string that was passed to `new`.
    pub fn source(&self) -> (r: &String)
        requires
            self.wf(),
        ensures
            r@ == self.text(),
    {
        &self.source
    }

    /// The source text between two character indices.
    pub fn excerpt(&self, start: usize, end: usize) -> (r: String)
        requires
            self.wf(),
            start <= end <= self.text().len(),
        ensures
            r@ == self.text().subrange(start as int, end as int),
    {
        let v = self.slice(start, end);
        chars_to_string(&v)
    }

    /// Current position in the source (the character the next scan reads).
    pub fn position(&self) -> (r: Position)
        ensures
            r.line == self.line_no(),
            r.col == self.col_no(),
    {
        Position::new(self.line, self.col)
    }

    fn peek_char(&self) -> (r: Option<char>)
        requires
            self.wf(),
        ensures
            r == (if self.pos < self.chars@.len() {
                Some(self.chars@[self.pos as int])
            } else {
                None::<char>
            }),
    {
        if self.pos < self.chars.len() {
            Some(self.chars[self.pos])
        } else {
            None
        }
    }

    /// The character `k` positions after the cursor, if any.
    fn peek_char_at(&self, k: usize) -> (r: Option<char>)
        requires
            self.wf(),
            k <= 4,
        ensures
            r == (if self.pos + k < self.chars@.len() {
                Some(self.chars@[self.pos + k])
            } else {
                None::<char>
            }),
    {
        if self.pos + k < self.chars.len() {
            Some(self.chars[self.pos + k])
        } else {
            None
        }
    }

    /// Consume the next character and advance the position counters.
    fn advance(&mut self)
        requires
            old(self).wf(),
            old(self).pos < old(self).chars@.len(),
        ensures
            final(self).wf(),
            final(self).pos == old(self).pos + 1,
            final(self).chars == old(self).chars,
            final(self).source == old(self).source,
            final(self).at_line_start == old(self).at_line_start,
            final(self).rem_pending == old(self).rem_pending,
            final(self).peeked == old(self).peeked,
            final(self).byte_off == old(self).byte_off + utf8_len(old(self).chars@[old(self).pos as int]),
    {
        let c = self.chars[self.pos];
        let n: usize = char_utf8_len(c);
        self.byte_off = self.byte_off + n;
        if c == '\n' {
            self.line = self.line + 1;
            self.col = 1;
        } else {
            self.col = self.col + 1;
        }
        self.pos = self.pos + 1;
        proof {
            assert(self.chars@.take(self.pos as int).drop_last() =~= self.chars@.take(old(self).pos as int));
        }
    }

    /// Skip over space and tab characters (not newlines).
    fn skip_whitespace(&mut self)
        requires
            old(self).wf(),
        ensures
            final(self).wf(),
            final(self).pos >= old(self).pos,
            final(self).chars == old(self).chars,
            final(self).source == old(self).source,
            final(self).at_line_start == old(self).at_line_start,
            final(self).rem_pending == old(self).rem_pending,
            final(self).peeked == old(self).peeked,
            final(self).byte_off >= old(self).byte_off,
            final(self).pos == final(self).chars@.len() || (final(self).chars@[final(self).pos as int] != ' '
                && final(self).chars@[final(self).pos as int] != '\t'),
            forall|k: int| old(self).pos <= k < final(self).pos ==> (#[trigger] final(self).chars@[k] == ' '
                || final(self).chars@[k] == '\t'),
    {
        while self.pos < self.chars.len() && (self.chars[self.pos] == ' ' || self.chars[self.pos] == '\t')
            invariant
                self.wf(),
                self.pos >= old(self).pos,
                self.chars == old(self).chars,
                self.source == old(self).source,
                self.at_line_start == old(self).at_line_start,
                self.rem_pending == old(self).rem_pending,
                self.peeked == old(self).peeked,
                self.byte_off >= old(self).byte_off,
                forall|k: int| old(self).pos <= k < self.pos ==> (#[trigger] self.chars@[k] == ' '
                    || self.chars@[k] == '\t'),
            decreases self.chars@.len() - self.pos,
        {
            self.advance();
        }
    }

    /// Build a spanned token from a start state to the current state.
    fn make(&self, token: Token, line: usize, col: usize, start_off: usize, start: usize) -> (r: SpannedToken)
        requires
            self.wf(),
            start <= self.pos,
            start_off <= self.byte_off,
        ensures
            r.token == token,
            r.pos.line == line,
            r.pos.col == col,
            r.source_offset == start_off,
            r.source_len == self.byte_off - start_off,
            r.char_start == start,
            r.char_end == self.pos,
            start_off == utf8_seq_len(self.chars@.take(start as int)) ==> r.source_len == utf8_seq_len(
                self.chars@.subrange(start as int, self.pos as int),
            ),
    {
        proof {
            lemma_utf8_seq_len_split(self.chars@, start as int, self.pos as int);
        }
        SpannedToken {
            token,
            pos: Position::new(line, col),
            source_offset: start_off,
            source_len: self.byte_off - start_off,
            char_start: start,
            char_end: self.pos,
        }
    }

    /// Consume and return the next token.
    pub fn next_token(&mut self) -> (r: SpannedToken)
        requires
            old(self).wf(),
        ensures
            final(self).wf(),
            final(self).text() == old(self).text(),
            final(self).cursor() >= old(self).cursor(),
            r.char_start <= r.char_end <= final(self).cursor(),
            r.token is Eof ==> final(self).cursor() == final(self).text().len(),
            !(r.token is Eof) ==> final(self).remaining() < old(self).remaining(),
            r.token is Eof ==> final(self).remaining() <= old(self).remaining(),
            token_facts(r, final(self).text()),
            old(self).held() is None && !old(self).comment_pending() ==> start_kind(r, final(self).text()),
    {
        if self.peeked.is_some() {
            let t = self.peeked.take();
            return t.unwrap();
        }
        self.next_token_inner()
    }

    /// Peek at the next token without consuming it.
    pub fn peek_token(&mut self) -> (r: SpannedToken)
        requires
            old(self).wf(),
        ensures
            final(self).wf(),
            final(self).text() == old(self).text(),
            final(self).cursor() >= old(self).cursor(),
            final(self).held() == Some(r),
            old(self).held() matches Some(t) ==> r == t && *final(self) == *old(self),
            token_facts(r, final(self).text()),
    {
        if self.peeked.is_none() {
            let t = self.next_token_inner();
            self.peeked = Some(t);
        }
        let r = self.peeked.as_ref().unwrap().dup();
        r
    }

    fn next_token_inner(&mut self) -> (r: SpannedToken)
        requires
            old(self).wf(),
            old(self).peeked is None,
        ensures
            final(self).wf(),
            final(self).chars == old(self).chars,
            final(self).source == old(self).source,
            final(self).peeked is None,
            final(self).pos >= old(self).pos,
            r.char_start <= r.char_end == final(self).pos,
            r.token is Eof ==> final(self).pos == final(self).chars@.len() && !final(self).rem_pending,
            r.token is Eof ==> final(self).remaining() <= old(self).remaining(),
            !(r.token is Eof) ==> final(self).remaining() < old(self).remaining(),
            token_facts(r, final(self).chars@),
            !old(self).rem_pending ==> start_kind(r, final(self).chars@),
    {
        if self.rem_pending {
            self.rem_pending = false;
            let start_off = self.byte_off;
            let start = self.pos;
            let line = self.line;
            let col = self.col;
            while self.pos < self.chars.len() && self.chars[self.pos] != '\n' && self.chars[self.pos] != '\r'
                invariant
                    self.wf(),
                    self.pos >= start,
                    start_off <= self.byte_off,
                    self.chars == old(self).chars,
                    self.source == old(self).source,
                    self.peeked is None,
                    !self.rem_pending,
                decreases self.chars@.len() - self.pos,
            {
                self.advance();
            }
            if self.pos < self.chars.len() && self.chars[self.pos] == '\r' {
                self.advance();
            }
            if self.pos < self.chars.len() && self.chars[self.pos] == '\n' {
                self.advance();
            }
            self.at_line_start = true;
            return self.make(Token::Newline, line, col, start_off, start);
        }
        self.skip_whitespace();
        let start_off = self.byte_off;
        let start = self.pos;
        let line = self.line;
        let col = self.col;
        if self.pos >= self.chars.len() {
            return self.make(Token::Eof, line, col, start_off, start);
        }
        let c = self.chars[self.pos];
        if c == '\r' || c == '\n' {
            if self.pos < self.chars.len() && self.chars[self.pos] == '\r' {
                self.advance();
            }
            if self.pos < self.chars.len() && self.chars[self.pos] == '\n' {
                self.advance();
            }
            self.at_line_start = true;
            self.make(Token::Newline, line, col, start_off, start)
        } else if c == '"' {
            self.scan_string(line, col, start_off, start)
        } else if is_ascii_digit(c) {
            self.scan_number(line, col, start_off, start)
        } else if char_is_alphabetic(c) || c == '_' {
            self.scan_ident(line, col, start_off, start)
        } else {
            self.scan_operator(line, col, start_off, start)
        }
    }

    /// Consume a run of decimal digits.
    fn skip_digits(&mut self)
        requires
            old(self).wf(),
        ensures
            final(self).wf(),
            final(self).chars == old(self).chars,
            final(self).source == old(self).source,
            final(self).peeked == old(self).peeked,
            final(self).rem_pending == old(self).rem_pending,
            final(self).at_line_start == old(self).at_line_start,
            final(self).byte_off >= old(self).byte_off,
            digits_end(final(self).chars@, old(self).pos as int, final(self).pos as int),
    {
        while self.pos < self.chars.len() && is_ascii_digit(self.chars[self.pos])
            invariant
                self.wf(),
                self.pos >= old(self).pos,
                self.chars == old(self).chars,
                self.source == old(self).source,
                self.peeked == old(self).peeked,
                self.rem_pending == old(self).rem_pending,
                self.at_line_start == old(self).at_line_start,
                self.byte_off >= old(self).byte_off,
                forall|k: int| old(self).pos <= k < self.pos ==> #[trigger] is_digit_spec(self.chars@[k]),
            decreases self.chars@.len() - self.pos,
        {
            self.advance();
        }
    }

    /// The characters `chars[start..end]`.
    fn slice(&self, start: usize, end: usize) -> (r: Vec<char>)
        requires
            start <= end <= self.chars@.len(),
        ensures
            r@ == self.chars@.subrange(start as int, end as int),
    {
        let mut v: Vec<char> = Vec::new();
        let mut i: usize = start;
        while i < end
            invariant
                start <= i <= end,
                end <= self.chars@.len(),
                v@ == self.chars@.subrange(start as int, i as int),
            decreases end - i,
        {
            v.push(self.chars[i]);
            assert(self.chars@.subrange(start as int, i as int + 1) =~= self.chars@.subrange(
                start as int,
                i as int,
            ).push(self.chars@[i as int]));
            i = i + 1;
        }
        v
    }

    /// Scan an integer or float literal, or a line-number label.
    fn scan_number(&mut self, line: usize, col: usize, start_off: usize, start: usize) -> (r: SpannedToken)
        requires
            old(self).wf(),
            old(self).peeked is None,
            !old(self).rem_pending,
            start == old(self).pos,
            start_off == old(self).byte_off,
            start < old(self).chars@.len(),
            is_digit_spec(old(self).chars@[start as int]),
        ensures
            final(self).wf(),
            final(self).chars == old(self).chars,
            final(self).source == old(self).source,
            final(self).peeked is None,
            !final(self).rem_pending,
            final(self).pos > old(self).pos,
            r.char_start == start,
            r.char_end == final(self).pos,
            !(r.token is Eof),
            r.token is IntLit || r.token is LineNum || r.token is FloatLit || r.token is Error,
            old(self).at_line_start ==> !(r.token is IntLit) && !(r.token is FloatLit),
            !old(self).at_line_start ==> !(r.token is LineNum),
            token_facts(r, final(self).chars@),
            all_digits(final(self).chars@.subrange(start as int, final(self).pos as int)) ==> ((r.token is IntLit
                || r.token is LineNum) <==> digits_value(final(self).chars@.subrange(start as int, final(self).pos as int))
                <= i64::MAX),
            !all_digits(final(self).chars@.subrange(start as int, final(self).pos as int)) ==> (r.token is FloatLit
                || r.token is Error) && (r.token is Error <==> old(self).at_line_start),
    {
        let is_line_num = self.at_line_start;
        self.at_line_start = false;
        self.skip_digits();
        let int_end = self.pos;
        let mut is_float = false;
        if self.peek_char() == Some('.') {
            if let Some(d) = self.peek_char_at(1) {
                is_float = is_ascii_digit(d);
            }
        }
        let ghost dot_at = self.pos;
        if is_float {
            self.advance();
            self.skip_digits();
            let e = self.peek_char();
            if e == Some('e') || e == Some('E') {
                self.advance();
                let sg = self.peek_char();
                if sg == Some('+') || sg == Some('-') {
                    self.advance();
                }
                self.skip_digits();
            }
        }
        let raw = self.slice(start, self.pos);
        proof {
            if is_float {
                assert(self.chars@[dot_at as int] == '.');
                assert(raw@[dot_at - start] == self.chars@[dot_at as int]);
                assert(!is_digit_spec(raw@[dot_at - start]));
            }
        }
        if is_float {
            let raw_s = chars_to_string(&raw);
            if is_line_num {
                let mut m: Vec<char> = Vec::new();
                crate::error::push_str(&mut m, "invalid line number: ");
                let mut i: usize = 0;
                while i < raw.len()
                    invariant
                        i <= raw.len(),
                    decreases raw.len() - i,
                {
                    m.push(raw[i]);
                    i = i + 1;
                }
                return self.make(Token::Error(chars_to_string(&m)), line, col, start_off, start);
            }
            return self.make(Token::FloatLit(raw_s), line, col, start_off, start);
        }
        assert(int_end == self.pos);
        assert(all_digits(raw@));
        match parse_digits_i64(&raw) {
            Some(n) => {
                if is_line_num {
                    self.make(Token::LineNum(n), line, col, start_off, start)
                } else {
                    self.make(Token::IntLit(n), line, col, start_off, start)
                }
            },
            None => {
                let mut m: Vec<char> = Vec::new();
                crate::error::push_str(&mut m, "integer literal out of range: ");
                let mut i: usize = 0;
                while i < raw.len()
                    invariant
                        i <= raw.len(),
                    decreases raw.len() - i,
                {
                    m.push(raw[i]);
                    i = i + 1;
                }
                self.make(Token::Error(chars_to_string(&m)), line, col, start_off, start)
            },
        }
    }

    /// Scan an identifier.  If it is `REM`, the rest of the line is skipped
    /// by the next scan.
    fn scan_ident(&mut self, line: usize, col: usize, start_off: usize, start: usize) -> (r: SpannedToken)
        requires
            old(self).wf(),
            old(self).peeked is None,
            !old(self).rem_pending,
            start == old(self).pos,
            start_off == old(self).byte_off,
            start < old(self).chars@.len(),
            ident_start(old(self).chars@[start as int]),
        ensures
            final(self).wf(),
            final(self).chars == old(self).chars,
            final(self).source == old(self).source,
            final(self).peeked is None,
            final(self).pos > old(self).pos,
            r.char_start == start,
            r.char_end == final(self).pos,
            !(r.token is Eof),
            r.token is Ident,
            token_facts(r, final(self).chars@),
    {
        self.at_line_start = false;
        self.advance();
        while self.pos < self.chars.len() && (char_is_alphanumeric(self.chars[self.pos]) || self.chars[self.pos] == '_')
            invariant
                self.wf(),
                self.pos > start,
                start_off <= self.byte_off,
                self.chars == old(self).chars,
                self.source == old(self).source,
                self.peeked is None,
                !self.rem_pending,
                forall|k: int| start < k < self.pos ==> #[trigger] ident_char(self.chars@[k]),
            decreases self.chars@.len() - self.pos,
        {
            self.advance();
        }
        let raw = self.slice(start, self.pos);
        if raw.len() == 3 && raw[0] == 'R' && raw[1] == 'E' && raw[2] == 'M' {
            self.rem_pending = true;
        }
        let name = chars_to_string(&raw);
        self.make(Token::Ident(name), line, col, start_off, start)
    }

    /// Scan a double-quoted string literal, expanding escape sequences.
    fn scan_string(&mut self, line: usize, col: usize, start_off: usize, start: usize) -> (r: SpannedToken)
        requires
            old(self).wf(),
            old(self).peeked is None,
            !old(self).rem_pending,
            start == old(self).pos,
            start_off == old(self).byte_off,
            start < old(self).chars@.len(),
            old(self).chars@[start as int] == '"',
        ensures
            final(self).wf(),
            final(self).chars == old(self).chars,
            final(self).source == old(self).source,
            final(self).peeked is None,
            !final(self).rem_pending,
            final(self).pos > old(self).pos,
            r.char_start == start,
            r.char_end == final(self).pos,
            !(r.token is Eof),
            r.token is StringLit || r.token is Error,
            r.token is StringLit <==> string_body(old(self).chars@, start + 1) is Some,
            r.token matches Token::Error(m) ==> (m@ == "unterminated string literal"@ || m@
                == "unterminated string literal after escape"@),
            token_facts(r, final(self).chars@),
    {
        self.at_line_start = false;
        self.advance();
        let mut value: Vec<char> = Vec::new();
        loop
            invariant_except_break
                string_body(self.chars@, start + 1) == (match string_body(self.chars@, self.pos as int) {
                    Some((rest, end)) => Some((value@ + rest, end)),
                    None => None,
                }),
            invariant
                self.wf(),
                self.pos > start,
                start == old(self).pos,
                start_off <= self.byte_off,
                start_off == utf8_seq_len(self.chars@.take(start as int)),
                self.chars == old(self).chars,
                self.source == old(self).source,
                self.peeked is None,
                !self.rem_pending,
                self.chars@[start as int] == '"',
            ensures
                string_body(self.chars@, start + 1) == Some((value@, self.pos as int)),
            decreases self.chars@.len() - self.pos,
        {
            match self.peek_char() {
                None => {
                    return self.make(
                        Token::Error("unterminated string literal".to_owned()),
                        line,
                        col,
                        start_off,
                        start,
                    );
                },
                Some(c) => {
                    if c == '\n' || c == '\r' {
                        return self.make(
                            Token::Error("unterminated string literal".to_owned()),
                            line,
                            col,
                            start_off,
                            start,
                        );
                    } else if c == '"' {
                        self.advance();
                        break ;
                    } else if c == '\\' {
                        self.advance();
                        match self.peek_char() {
                            None => {
                                return self.make(
                                    Token::Error(
                                        "unterminated string literal after escape".to_owned(),
                                    ),
                                    line,
                                    col,
                                    start_off,
                                    start,
                                );
                            },
                            Some(e) => {
                                self.advance();
                                if e == 'n' {
                                    value.push('\n');
                                } else if e == 't' {
                                    value.push('\t');
                                } else if e == '\\' {
                                    value.push('\\');
                                } else if e == '"' {
                                    value.push('"');
                                } else {
                                    value.push('\\');
                                    value.push(e);
                                }
                            },
                        }
                    } else {
                        self.advance();
                        value.push(c);
                    }
                },
            }
        }
        let v = chars_to_string(&value);
        self.make(Token::StringLit(v), line, col, start_off, start)
    }

    /// A token holding an operator string.
    fn op_token(&self, s: &str, line: usize, col: usize, start_off: usize, start: usize) -> (r: SpannedToken)
        requires
            self.wf(),
            start <= self.pos,
            start_off <= self.byte_off,
        ensures
            r.token matches Token::Op(x) && x@ == s@,
            r.char_start == start,
            r.char_end == self.pos,
            start_off == utf8_seq_len(self.chars@.take(start as int)) ==> r.source_len == utf8_seq_len(
                self.chars@.subrange(start as int, self.pos as int),
            ),
    {
        self.make(Token::Op(s.to_owned()), line, col, start_off, start)
    }

    /// Scan an operator or punctuation character.
    fn scan_operator(&mut self, line: usize, col: usize, start_off: usize, start: usize) -> (r: SpannedToken)
        requires
            old(self).wf(),
            old(self).peeked is None,
            !old(self).rem_pending,
            start == old(self).pos,
            start_off == old(self).byte_off,
            start < old(self).chars@.len(),
            !ident_start(old(self).chars@[start as int]),
            !is_digit_spec(old(self).chars@[start as int]),
        ensures
            final(self).wf(),
            final(self).chars == old(self).chars,
            final(self).source == old(self).source,
            final(self).peeked is None,
            !final(self).rem_pending,
            final(self).pos > old(self).pos,
            r.char_start == start,
            r.char_end == final(self).pos,
            !(r.token is Eof),
            !(r.token is Ident),
            !(r.token is IntLit),
            !(r.token is LineNum),
            !(r.token is StringLit),
            !(r.token is Newline),
            token_facts(r, final(self).chars@),
            symbol_at(old(self).chars@, start as int) ==> !(r.token is Error) && r.char_end == start + symbol_len(
                old(self).chars@,
                start as int,
            ),
            !symbol_at(old(self).chars@, start as int) ==> r.token is Error && r.char_end == start + 1,
    {
        proof {
            reveal_strlit("+");
            reveal_strlit("*");
            reveal_strlit("/");
            reveal_strlit("%");
            reveal_strlit("=");
            reveal_strlit("-");
            reveal_strlit("!");
            reveal_strlit("&&");
            reveal_strlit("||");
            reveal_strlit("|");
            reveal_strlit("<>");
            reveal_strlit("<=");
            reveal_strlit("<");
            reveal_strlit(">=");
            reveal_strlit(">");
        }
        let ghost cs = self.chars@;
        let ghost st = start as int;
        self.at_line_start = false;
        let first = self.chars[self.pos];
        self.advance();
        let r = if first == ',' {
            self.make(Token::Comma, line, col, start_off, start)
        } else if first == ';' {
            self.at_line_start = true;
            self.make(Token::Semicolon, line, col, start_off, start)
        } else if first == '(' {
            self.make(Token::LParen, line, col, start_off, start)
        } else if first == ')' {
            self.make(Token::RParen, line, col, start_off, start)
        } else if first == '[' {
            self.make(Token::LBracket, line, col, start_off, start)
        } else if first == ']' {
            self.make(Token::RBracket, line, col, start_off, start)
        } else if first == '@' {
            self.make(Token::At, line, col, start_off, start)
        } else if first == '+' {
            self.op_token("+", line, col, start_off, start)
        } else if first == '*' {
            self.op_token("*", line, col, start_off, start)
        } else if first == '/' {
            self.op_token("/", line, col, start_off, start)
        } else if first == '%' {
            self.op_token("%", line, col, start_off, start)
        } else if first == '=' {
            self.op_token("=", line, col, start_off, start)
        } else if first == '-' {
            self.op_token("-", line, col, start_off, start)
        } else if first == '!' {
            self.op_token("!", line, col, start_off, start)
        } else if first == '&' {
            if matches!(self.peek_char(), Some('&')) {
                self.advance();
                self.op_token("&&", line, col, start_off, start)
            } else {
                self.make(Token::Ampersand, line, col, start_off, start)
            }
        } else if first == '|' {
            if matches!(self.peek_char(), Some('|')) {
                self.advance();
                self.op_token("||", line, col, start_off, start)
            } else {
                self.op_token("|", line, col, start_off, start)
            }
        } else if first == '<' {
            let n = self.peek_char();
            if matches!(n, Some('>')) {
                self.advance();
                self.op_token("<>", line, col, start_off, start)
            } else if matches!(n, Some('=')) {
                self.advance();
                self.op_token("<=", line, col, start_off, start)
            } else {
                self.op_token("<", line, col, start_off, start)
            }
        } else if first == '>' {
            if matches!(self.peek_char(), Some('=')) {
                self.advance();
                self.op_token(">=", line, col, start_off, start)
            } else {
                self.op_token(">", line, col, start_off, start)
            }
        } else if first == '.' && self.peek_char() == Some('.') && self.peek_char_at(1) == Some('.') {
            self.advance();
            self.advance();
            self.make(Token::Ellipsis, line, col, start_off, start)
        } else {
            let mut m: Vec<char> = Vec::new();
            crate::error::push_str(&mut m, "unexpected character: '");
            m.push(first);
            m.push('\'');
            self.make(Token::Error(chars_to_string(&m)), line, col, start_off, start)
        };
        proof {
            let e = self.pos as int;
            if e == st + 1 {
                assert(cs.subrange(st, e) =~= seq![cs[st]]);
            } else if e == st + 2 {
                assert(cs.subrange(st, e) =~= seq![cs[st], cs[st + 1]]);
            } else if e == st + 3 {
                assert(cs.subrange(st, e) =~= seq![cs[st], cs[st + 1], cs[st + 2]]);
            }
            // The operator spelling is the raw text, one first character at a time.
            assert(r.token matches Token::Op(o) ==> o@ == cs.subrange(st, e)) by {
                let c = cs[st];
                if c == '+' {} else if c == '-' {} else if c == '*' {} else if c == '/' {} else if c == '%' {
                } else if c == '=' {} else if c == '!' {} else if c == '<' {} else if c == '>' {} else if c == '&' {
                } else if c == '|' {}
            }
        }
        r
    }
}

/// The last comma outside any parentheses or brackets in `ts`, scanning
/// from `i` with `depth` brackets open and `last` the last such comma so
/// far; `None` when a `)` or `]` closes nothing.
pub open spec fn comma_scan(ts: Seq<SpannedToken>, i: int, depth: int, last: Option<usize>) -> Option<Option<usize>>
    decreases ts.len() - i,
{
    if i < 0 || i >= ts.len() {
        Some(last)
    } else {
        match ts[i].token {
            Token::LParen | Token::LBracket => comma_scan(
                ts,
                i + 1,
                if depth < usize::MAX { depth + 1 } else { depth },
                last,
            ),
            Token::RParen | Token::RBracket => if depth <= 0 {
                None
            } else {
                comma_scan(ts, i + 1, depth - 1, last)
            },
            Token::Comma => comma_scan(ts, i + 1, depth, if depth == 0 { Some(i as usize) } else { last }),
            _ => comma_scan(ts, i + 1, depth, last),
        }
    }
}

/// Index of the last comma outside any parentheses or brackets.
///
/// Returns `Err(InvalidExpression)` on an unmatched `)` or `]`.
pub fn last_top_level_comma(tokens: &[SpannedToken]) -> (r: Result<Option<usize>, TbxError>)
    ensures
        r matches Ok(Some(i)) ==> i < tokens@.len() && tokens@[i as int].token is Comma,
        match comma_scan(tokens@, 0, 0, None) {
            None => r == Err::<Option<usize>, TbxError>(
                TbxError::InvalidExpression { reason: "unmatched ')' or ']' in statement" },
            ),
            Some(o) => r == Ok::<Option<usize>, TbxError>(o),
        },
{
    let mut depth: usize = 0;
    let mut last: Option<usize> = None;
    let mut i: usize = 0;
    while i < tokens.len()
        invariant
            i <= tokens@.len(),
            last matches Some(j) ==> j < i && tokens@[j as int].token is Comma,
            comma_scan(tokens@, i as int, depth as int, last) == comma_scan(tokens@, 0, 0, None),
        decreases tokens@.len() - i,
    {
        match &tokens[i].token {
            Token::LParen | Token::LBracket => {
                if depth < usize::MAX {
                    depth = depth + 1;
                }
            },
            Token::RParen | Token::RBracket => {
                if depth == 0 {
                    return Err(TbxError::InvalidExpression { reason: "unmatched ')' or ']' in statement" });
                }
                depth = depth - 1;
            },
            Token::Comma => {
                if depth == 0 {
                    last = Some(i);
                }
            },
            _ => {},
        }
        i = i + 1;
    }
    Ok(last)
}

/// The label number of a jump statement: the token list, ignoring
/// `Newline`/`Eof`, must be exactly one integer.
pub open spec fn significant(tokens: Seq<SpannedToken>) -> Seq<SpannedToken>
    decreases tokens.len(),
{
    if tokens.len() == 0 {
        Seq::empty()
    } else if tokens.last().token is Newline || tokens.last().token is Eof {
        significant(tokens.drop_last())
    } else {
        significant(tokens.drop_last()).push(tokens.last())
    }
}

pub open spec fn label_of(tokens: Seq<SpannedToken>) -> Option<i64> {
    let ts = significant(tokens);
    if ts.len() == 1 {
        match ts[0].token {
            Token::IntLit(n) => Some(n),
            Token::LineNum(n) => Some(n),
            _ => None,
        }
    } else {
        None
    }
}

pub fn parse_label_number(tokens: &[SpannedToken]) -> (r: Option<i64>)
    ensures
        r == label_of(tokens@),
{
    let mut found: Option<i64> = None;
    let mut count: usize = 0;
    let mut i: usize = 0;
    while i < tokens.len()
        invariant
            i <= tokens@.len(),
            count == significant(tokens@.take(i as int)).len(),
            count <= i,
            count >= 1 ==> found == (match significant(tokens@.take(i as int))[0].token {
                Token::IntLit(n) => Some(n),
                Token::LineNum(n) => Some(n),
                _ => None::<i64>,
            }),
        decreases tokens@.len() - i,
    {
        assert(tokens@.take(i as int + 1).drop_last() =~= tokens@.take(i as int));
        let t = &tokens[i].token;
        let skip = matches!(t, Token::Newline | Token::Eof);
        if !skip {
            if count == 0 {
                found = match t {
                    Token::IntLit(n) => Some(*n),
                    Token::LineNum(n) => Some(*n),
                    _ => None,
                };
            }
            count = count + 1;
        }
        i = i + 1;
    }
    assert(tokens@.take(tokens@.len() as int) =~= tokens@);
    if count == 1 {
        found
    } else {
        None
    }
}

} // verus!
