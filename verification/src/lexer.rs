//! A hand-written tokenizer for the surface language: names, numbers,
//! strings, single-character operators, and indentation tracking (`Indent`
//! and `Dedent` tokens from leading spaces, suppressed inside brackets).
//! Tokenisation is a front-end concern at the boundary of the core — the
//! compiler consumes a syntax tree, not tokens — so the contracts here state
//! well-formedness and progress, and the token stream itself is pinned by
//! concrete cases.

use vstd::prelude::*;
use vstd::string::StrSliceExecFns;

verus! {

/// One lexical token. Tokens carry no payload: the stream records shape,
/// and the parser reads the source text itself.
#[derive(Debug, Clone, Copy, PartialEq, Eq, Structural)]
pub enum Tok {
    Name,
    Number,
    String,
    Equal,
    Plus,
    Minus,
    Lbrace,
    RBrace,
    Colon,
    Comma,
    Newline,
    Indent,
    Dedent,
}

/// Why tokenisation stopped before the end of the input.
#[derive(Debug, Clone, Copy, PartialEq, Eq, Structural)]
pub enum LexicalError {
    /// A quoted string ran to the end of the input without its closing quote.
    UnterminatedString,
}

/// A tokenizer over one source text. It walks the characters once, tracks
/// bracket nesting (indentation is ignored inside brackets), and keeps a
/// stack of indentation columns plus a count of dedents still owed.
pub struct Lexer {
    chars: Vec<char>,
    index: usize,
    at_begin_of_line: bool,
    nesting: usize,
    indentation_stack: Vec<usize>,
    pending_dedents: usize,
}

impl Lexer {
    /// The lexer's structural validity: the cursor stays within the text and
    /// the indentation stack always keeps its base column.
    pub closed spec fn wf(&self) -> bool {
        self.index <= self.chars@.len() && self.indentation_stack@.len() >= 1
    }

    /// How many characters remain unread.
    pub closed spec fn remaining(&self) -> int {
        self.chars@.len() - self.index
    }

    /// Whether the lexer still owes the begin-of-line indentation check.
    pub closed spec fn begin_flag(&self) -> int {
        if self.at_begin_of_line {
            1
        } else {
            0
        }
    }

    /// How many dedent tokens are still owed.
    pub closed spec fn pending(&self) -> int {
        self.pending_dedents as int
    }

    /// A lexer at the start of `input`, owing the first indentation check.
    pub fn new(input: &str) -> (r: Lexer)
        ensures
            r.wf(),
    {
        let n = input.unicode_len();
        let mut chars: Vec<char> = Vec::new();
        let mut i: usize = 0;
        while i < n
            invariant
                n == input@.len(),
                i <= n,
                chars@.len() == i,
            decreases n - i,
        {
            chars.push(input.get_char(i));
            i = i + 1;
        }
        let mut indentation_stack: Vec<usize> = Vec::new();
        indentation_stack.push(0);
        Lexer {
            chars,
            index: 0,
            at_begin_of_line: true,
            nesting: 0,
            indentation_stack,
            pending_dedents: 0,
        }
    }

    /// Whether the cursor stands on an identifier character.
    fn is_char(&self) -> (r: bool)
        requires
            self.wf(),
        ensures
            r ==> self.index < self.chars@.len(),
    {
        if self.index >= self.chars.len() {
            return false;
        }
        let c = self.chars[self.index];
        ('a' <= c && c <= 'z') || ('A' <= c && c <= 'Z') || c == '_'
    }

    /// Whether the cursor stands on a decimal digit.
    fn is_number(&self) -> (r: bool)
        requires
            self.wf(),
        ensures
            r ==> self.index < self.chars@.len(),
    {
        if self.index >= self.chars.len() {
            return false;
        }
        let c = self.chars[self.index];
        '0' <= c && c <= '9'
    }

    /// Whether the whole input was consumed.
    fn is_end(&self) -> (r: bool)
        requires
            self.wf(),
        ensures
            r == (self.index >= self.chars@.len()),
    {
        self.index >= self.chars.len()
    }

    /// Advances the cursor one character (never past the end).
    fn next_char(&mut self)
        requires
            old(self).wf(),
        ensures
            final(self).wf(),
            old(self).index < old(self).chars@.len() ==> final(self).remaining() == old(
                self,
            ).remaining() - 1,
            old(self).index >= old(self).chars@.len() ==> *final(self) == *old(self),
            final(self).remaining() <= old(self).remaining(),
            final(self).chars == old(self).chars,
            final(self).at_begin_of_line == old(self).at_begin_of_line,
            final(self).nesting == old(self).nesting,
            final(self).indentation_stack == old(self).indentation_stack,
            final(self).pending_dedents == old(self).pending_dedents,
    {
        if self.index < self.chars.len() {
            self.index = self.index + 1;
        }
    }

    /// Consumes an identifier: letters, digits and underscores after the
    /// first character.
    fn lex_identifier(&mut self) -> (r: Tok)
        requires
            old(self).wf(),
        ensures
            final(self).wf(),
            final(self).remaining() <= old(self).remaining(),
            final(self).begin_flag() == old(self).begin_flag(),
            final(self).pending() == old(self).pending(),
            r == Tok::Name,
    {
        while self.is_char() || self.is_number()
            invariant
                self.wf(),
                self.chars == old(self).chars,
                self.at_begin_of_line == old(self).at_begin_of_line,
                self.pending_dedents == old(self).pending_dedents,
                self.index >= old(self).index,
            decreases self.chars@.len() - self.index,
        {
            self.next_char();
        }
        Tok::Name
    }

    /// Consumes a run of decimal digits.
    fn lex_number(&mut self) -> (r: Tok)
        requires
            old(self).wf(),
        ensures
            final(self).wf(),
            final(self).remaining() <= old(self).remaining(),
            final(self).begin_flag() == old(self).begin_flag(),
            final(self).pending() == old(self).pending(),
            r == Tok::Number,
    {
        while self.is_number()
            invariant
                self.wf(),
                self.chars == old(self).chars,
                self.at_begin_of_line == old(self).at_begin_of_line,
                self.pending_dedents == old(self).pending_dedents,
                self.index >= old(self).index,
            decreases self.chars@.len() - self.index,
        {
            self.next_char();
        }
        Tok::Number
    }

    /// Consumes a comment: everything up to, but not including, the next
    /// line ending.
    fn lex_comment(&mut self)
        requires
            old(self).wf(),
        ensures
            final(self).wf(),
            final(self).remaining() <= old(self).remaining(),
            final(self).begin_flag() == old(self).begin_flag(),
            final(self).pending() == old(self).pending(),
    {
        while self.index < self.chars.len() && self.chars[self.index] != '\n'
            invariant
                self.wf(),
                self.chars == old(self).chars,
                self.at_begin_of_line == old(self).at_begin_of_line,
                self.pending_dedents == old(self).pending_dedents,
                self.index >= old(self).index,
            decreases self.chars@.len() - self.index,
        {
            self.index = self.index + 1;
        }
    }

    /// Consumes a quoted string after its opening quote `quote`, including
    /// the closing quote; an input that ends first is an error.
    fn lex_string(&mut self, quote: char) -> (r: Result<Tok, LexicalError>)
        requires
            old(self).wf(),
        ensures
            final(self).wf(),
            final(self).remaining() <= old(self).remaining(),
            final(self).begin_flag() == old(self).begin_flag(),
            final(self).pending() == old(self).pending(),
    {
        while self.index < self.chars.len() && self.chars[self.index] != quote
            invariant
                self.wf(),
                self.chars == old(self).chars,
                self.at_begin_of_line == old(self).at_begin_of_line,
                self.pending_dedents == old(self).pending_dedents,
                self.index >= old(self).index,
            decreases self.chars@.len() - self.index,
        {
            self.index = self.index + 1;
        }
        if self.index >= self.chars.len() {
            return Err(LexicalError::UnterminatedString);
        }
        self.index = self.index + 1;
        Ok(Tok::String)
    }

    /// Produces the next token: owed dedents first, then the begin-of-line
    /// indentation bookkeeping (outside brackets), then one token from the
    /// character under the cursor. Unknown characters are skipped. `None`
    /// means the input is exhausted. Every produced token makes progress, so
    /// tokenisation terminates.
    pub fn next_token(&mut self) -> (r: Result<Option<Tok>, LexicalError>)
        requires
            old(self).wf(),
        ensures
            final(self).wf(),
            final(self).remaining() <= old(self).remaining(),
            (r matches Ok(t) && t is Some) ==> (final(self).remaining() < old(self).remaining()
                || (final(self).remaining() == old(self).remaining()
                && (final(self).begin_flag() < old(self).begin_flag()
                || (final(self).begin_flag() == old(self).begin_flag()
                && final(self).pending() < old(self).pending())))),
    {
        if self.pending_dedents > 0 {
            self.pending_dedents = self.pending_dedents - 1;
            return Ok(Some(Tok::Dedent));
        }
        if self.at_begin_of_line {
            self.at_begin_of_line = false;
            let mut col: usize = 0;
            while self.index < self.chars.len() && self.chars[self.index] == ' '
                invariant
                    self.wf(),
                    col <= self.index,
                    self.remaining() == old(self).remaining() - col,
                    self.chars == old(self).chars,
                    self.pending_dedents == old(self).pending_dedents,
                    self.index >= old(self).index,
                    !self.at_begin_of_line,
                    self.nesting == old(self).nesting,
                    self.indentation_stack == old(self).indentation_stack,
                decreases self.chars@.len() - self.index,
            {
                self.index = self.index + 1;
                col = col + 1;
            }
            if self.nesting == 0 {
                let current = self.indentation_stack[self.indentation_stack.len() - 1];
                if col > current {
                    self.indentation_stack.push(col);
                    return Ok(Some(Tok::Indent));
                }
                if col < current {
                    let mut dedents: usize = 0;
                    let depth: usize = self.indentation_stack.len();
                    while self.indentation_stack.len() > 1 && self.indentation_stack[
                        self.indentation_stack.len() - 1] > col
                        invariant
                            self.indentation_stack@.len() >= 1,
                            self.wf(),
                            self.indentation_stack@.len() + dedents == depth as int,
                            self.chars == old(self).chars,
                            self.index >= old(self).index,
                            self.pending_dedents == old(self).pending_dedents,
                            !self.at_begin_of_line,
                        decreases self.indentation_stack@.len(),
                    {
                        let _ = self.indentation_stack.pop();
                        dedents = dedents + 1;
                    }
                    if self.indentation_stack[self.indentation_stack.len() - 1] < col {
                        // A ragged dedent that matches no outer level: adopt
                        // the new column rather than trap.
                        self.indentation_stack.push(col);
                    }
                    if dedents > 0 {
                        self.pending_dedents = dedents - 1;
                        return Ok(Some(Tok::Dedent));
                    }
                }
            }
        }
        loop
            invariant
                self.wf(),
                self.remaining() <= old(self).remaining(),
            decreases self.chars@.len() - self.index,
        {
            if self.index >= self.chars.len() {
                return Ok(None);
            }
            let c = self.chars[self.index];
            if '0' <= c && c <= '9' {
                self.index = self.index + 1;
                let t = self.lex_number();
                return Ok(Some(t));
            }
            if ('a' <= c && c <= 'z') || ('A' <= c && c <= 'Z') || c == '_' {
                self.index = self.index + 1;
                let t = self.lex_identifier();
                return Ok(Some(t));
            }
            if c == '#' {
                self.index = self.index + 1;
                self.lex_comment();
                continue ;
            }
            if c == '"' || c == '\'' {
                self.index = self.index + 1;
                match self.lex_string(c) {
                    Ok(t) => {
                        return Ok(Some(t));
                    },
                    Err(e) => {
                        return Err(e);
                    },
                }
            }
            if c == '=' {
                self.index = self.index + 1;
                return Ok(Some(Tok::Equal));
            }
            if c == '+' {
                self.index = self.index + 1;
                return Ok(Some(Tok::Plus));
            }
            if c == '-' {
                self.index = self.index + 1;
                return Ok(Some(Tok::Minus));
            }
            if c == '(' || c == '[' {
                self.index = self.index + 1;
                if self.nesting < usize::MAX {
                    self.nesting = self.nesting + 1;
                }
                return Ok(Some(Tok::Lbrace));
            }
            if c == ')' || c == ']' {
                self.index = self.index + 1;
                if self.nesting > 0 {
                    self.nesting = self.nesting - 1;
                }
                return Ok(Some(Tok::RBrace));
            }
            if c == ':' {
                self.index = self.index + 1;
                return Ok(Some(Tok::Colon));
            }
            if c == ',' {
                self.index = self.index + 1;
                return Ok(Some(Tok::Comma));
            }
            if c == '\n' {
                self.index = self.index + 1;
                self.at_begin_of_line = true;
                return Ok(Some(Tok::Newline));
            }
            // Anything else is ignored.
            self.index = self.index + 1;
        }
    }
}

/// Tokenizes `source` from start to end, yielding the tokens in order; a
/// lexical error ends tokenisation with the tokens read so far.
pub fn lex_source(source: &String) -> (tokens: Vec<Tok>) {
    let mut lexer = Lexer::new(source.as_str());
    let mut tokens: Vec<Tok> = Vec::new();
    loop
        invariant
            lexer.wf(),
        decreases lexer.remaining(), lexer.begin_flag(), lexer.pending(),
    {
        match lexer.next_token() {
            Ok(Some(tok)) => {
                tokens.push(tok);
            },
            Ok(None) => {
                return tokens;
            },
            Err(_) => {
                return tokens;
            },
        }
    }
}

} // verus!
