//! Groups the token stream into logical statements: a statement ends at a
//! newline or `;` outside parentheses, and may span several physical lines
//! while a `(` or `[` is open.
use vstd::prelude::*;
use crate::error::TbxError;
use crate::lexer::{Lexer, SpannedToken, Token, MAX_SOURCE_CHARS, punct_spelling};

verus! {

/// One logical statement.
#[derive(Debug, Clone, PartialEq)]
pub struct LogicalStatement {
    /// The statement's tokens (no `Newline`, `Eof`, leading label).
    pub tokens: Vec<SpannedToken>,
    /// The line-number label in front of the statement, if any.
    pub label: Option<i64>,
    /// Line of the statement's first token.
    pub start_line: usize,
    /// Line of the statement's last token.
    pub end_line: usize,
    /// Column of the statement's first token.
    pub start_col: usize,
    /// The source text of the statement, from its first to its last token.
    pub source_excerpt: String,
}

/// A statement that could not be delimited.
#[derive(Debug, Clone, PartialEq)]
pub struct ReaderError {
    pub line: usize,
    pub col: usize,
    pub source_excerpt: String,
    pub kind: TbxError,
}

/// Produces logical statements from source text.
pub struct StatementReader {
    lexer: Lexer,
}

/// The text holds no opening bracket, so no statement of it is left open.
pub open spec fn no_open_brackets(text: Seq<char>) -> bool {
    forall|i: int| 0 <= i < text.len() ==> #[trigger] text[i] != '(' && text[i] != '['
}

/// A token that may appear inside a logical statement.
pub open spec fn statement_token(t: SpannedToken) -> bool {
    !(t.token is Newline) && !(t.token is Eof) && !(t.token is LineNum)
}

impl StatementReader {
    pub closed spec fn wf(self) -> bool {
        self.lexer.wf()
    }

    /// The source text being read.
    pub closed spec fn text(self) -> Seq<char> {
        self.lexer.text()
    }

    /// A measure that every statement read strictly decreases.
    pub closed spec fn remaining(self) -> nat {
        self.lexer.remaining()
    }

    pub fn new(src: &str) -> (r: Self)
        requires
            src@.len() <= MAX_SOURCE_CHARS,
        ensures
            r.wf(),
            r.text() == src@,
            r.remaining() == 3 * src@.len(),
    {
        StatementReader { lexer: Lexer::new(src) }
    }

    /// Read the next logical statement; `Ok(None)` at end of input.
    ///
    /// An unclosed `(` or `[` at end of input is reported at the position of
    /// the innermost unclosed bracket.
    pub fn next_statement(&mut self) -> (r: Result<Option<LogicalStatement>, ReaderError>)
        requires
            old(self).wf(),
        ensures
            final(self).wf(),
            r matches Ok(Some(st)) ==> final(self).remaining() < old(self).remaining(),
            r matches Ok(Some(st)) ==> (st.tokens@.len() > 0 || st.label is Some),
            r matches Ok(Some(st)) ==> forall|i: int| 0 <= i < st.tokens@.len() ==> #[trigger] statement_token(
                st.tokens@[i],
            ),
            final(self).text() == old(self).text(),
            old(self).remaining() == 0 ==> r == Ok::<Option<LogicalStatement>, ReaderError>(None),
            no_open_brackets(old(self).text()) ==> (r is Ok),
            r matches Err(e) ==> e.kind == (TbxError::InvalidExpression { reason: "unmatched '(' in statement" }),
    {
        let mut tokens: Vec<SpannedToken> = Vec::new();
        let mut label: Option<i64> = None;
        let mut opens: Vec<SpannedToken> = Vec::new();
        let mut first: Option<SpannedToken> = None;
        let mut last_end: usize = 0;
        let mut last_line: usize = 0;
        let ghost start_measure = self.lexer.remaining();
        loop
            invariant
                self.lexer.wf(),
                self.lexer.text() == old(self).lexer.text(),
                no_open_brackets(self.lexer.text()) ==> opens@.len() == 0,
                start_measure == 0 ==> opens@.len() == 0 && tokens@.len() == 0 && label is None,
                self.lexer.remaining() <= start_measure,
                start_measure == old(self).lexer.remaining(),
                (tokens@.len() > 0 || label is Some) ==> self.lexer.remaining() < start_measure,
                (tokens@.len() > 0 || label is Some) ==> first is Some,
                first matches Some(f) ==> f.char_start <= self.lexer.text().len(),
                last_end <= self.lexer.text().len(),
                forall|i: int| 0 <= i < tokens@.len() ==> #[trigger] statement_token(tokens@[i]),
            ensures
                tokens@.len() > 0 || label is Some,
                first is Some,
                self.lexer.remaining() < start_measure,
                first matches Some(f) ==> f.char_start <= self.lexer.text().len(),
                last_end <= self.lexer.text().len(),
                forall|i: int| 0 <= i < tokens@.len() ==> #[trigger] statement_token(tokens@[i]),
            decreases self.lexer.remaining(),
        {
            let t = self.lexer.next_token();
            match t.token {
                Token::Eof => {
                    if opens.len() > 0 {
                        let o = &opens[opens.len() - 1];
                        let excerpt = match &first {
                            Some(f) => {
                                let e = if last_end < f.char_start { f.char_start } else { last_end };
                                self.lexer.excerpt(f.char_start, e)
                            },
                            None => String::new(),
                        };
                        return Err(
                            ReaderError {
                                line: o.pos.line,
                                col: o.pos.col,
                                source_excerpt: excerpt,
                                kind: TbxError::InvalidExpression {
                                    reason: "unmatched '(' in statement",
                                },
                            },
                        );
                    }
                    if tokens.len() == 0 && label.is_none() {
                        return Ok(None);
                    }
                    break ;
                },
                Token::Newline => {
                    if opens.len() == 0 {
                        if tokens.len() > 0 || label.is_some() {
                            break ;
                        }
                    }
                },
                Token::Semicolon => {
                    if opens.len() == 0 {
                        if tokens.len() > 0 || label.is_some() {
                            break ;
                        }
                    } else {
                        if first.is_none() {
                            first = Some(t.dup());
                        }
                        last_end = t.char_end;
                        last_line = t.pos.line;
                        tokens.push(t);
                    }
                },
                Token::LineNum(n) => {
                    if tokens.len() == 0 && label.is_none() && opens.len() == 0 {
                        label = Some(n);
                        first = Some(t.dup());
                        last_end = t.char_end;
                        last_line = t.pos.line;
                    } else {
                        if first.is_none() {
                            first = Some(t.dup());
                        }
                        last_end = t.char_end;
                        last_line = t.pos.line;
                        let nt = SpannedToken {
                            token: Token::IntLit(n),
                            pos: t.pos,
                            source_offset: t.source_offset,
                            source_len: t.source_len,
                            char_start: t.char_start,
                            char_end: t.char_end,
                        };
                        tokens.push(nt);
                    }
                },
                _ => {
                    let is_open = matches!(t.token, Token::LParen | Token::LBracket);
                    let is_close = matches!(t.token, Token::RParen | Token::RBracket);
                    proof {
                        if is_open && no_open_brackets(self.lexer.text()) {
                            let tx = self.lexer.text();
                            let sp = punct_spelling(t.token).unwrap();
                            assert(sp == tx.subrange(t.char_start as int, t.char_end as int));
                            assert(sp.len() == 1 && (sp[0] == '(' || sp[0] == '['));
                            assert(tx.subrange(t.char_start as int, t.char_end as int)[0] == tx[t.char_start as int]);
                        }
                    }
                    if is_open {
                        opens.push(t.dup());
                    } else if is_close && opens.len() > 0 {
                        opens.pop();
                    }
                    if first.is_none() {
                        first = Some(t.dup());
                    }
                    last_end = t.char_end;
                    last_line = t.pos.line;
                    tokens.push(t);
                },
            }
        }
        let f = first.unwrap();
        let e = if last_end < f.char_start { f.char_start } else { last_end };
        let excerpt = self.lexer.excerpt(f.char_start, e);
        Ok(
            Some(
                LogicalStatement {
                    tokens,
                    label,
                    start_line: f.pos.line,
                    end_line: last_line,
                    start_col: f.pos.col,
                    source_excerpt: excerpt,
                },
            ),
        )
    }
}

} // verus!
