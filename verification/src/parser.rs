//! A recursive-descent parser from source text to the syntax tree. Parsing
//! is a front-end collaborator at the boundary of the core — the compiler's
//! contract starts from the tree — so the contracts here state bounds and
//! progress (parsing terminates and never trips), and the accepted language
//! is pinned by concrete cases.
//!
//! The grammar, line-oriented: statements are separated by line endings or
//! `;`; a backslash immediately followed by `n` also counts as a line ending,
//! so text that arrives with escaped newlines parses as multi-line source.
//! Compound statements (`if`, `while`, `for`) take their suite on the same
//! line after `:`. Expressions have two precedence levels (`+ -` over
//! `* / // %`), call postfixes, parentheses, list displays, numbers,
//! single- or double-quoted strings, names, and the literals `True`,
//! `False` and `None`.

use vstd::prelude::*;
use vstd::string::{StrSliceExecFns, StringExecFns};

use crate::ast::{Expression, Operator, Program, Statement};

verus! {

/// Why parsing rejected the source.
#[derive(Debug, Clone, Copy, PartialEq, Eq, Structural)]
pub enum ParseError {
    /// The source ended where more was needed.
    UnexpectedEnd,
    /// The character at `at` fits no grammar rule at that point.
    UnexpectedCharacter { at: usize },
    /// The integer literal at `at` does not fit a machine integer.
    NumberTooLarge { at: usize },
    /// The string literal at `at` never closes.
    UnterminatedString { at: usize },
}

/// One source text, held both as text (for extracting names and string
/// contents) and as its characters (for indexing).
struct Source {
    text: String,
    chars: Vec<char>,
}

impl Source {
    /// The two forms hold the same characters.
    spec fn wf(&self) -> bool {
        self.text@ == self.chars@
    }
}

/// Whether `c` can start a name.
fn is_name_start(c: char) -> (r: bool)
    ensures
        r == (('a' <= c && c <= 'z') || ('A' <= c && c <= 'Z') || c == '_'),
{
    ('a' <= c && c <= 'z') || ('A' <= c && c <= 'Z') || c == '_'
}

/// Whether `c` can continue a name.
fn is_name_char(c: char) -> (r: bool)
    ensures
        r == (('a' <= c && c <= 'z') || ('A' <= c && c <= 'Z') || c == '_' || ('0' <= c && c
            <= '9')),
{
    ('a' <= c && c <= 'z') || ('A' <= c && c <= 'Z') || c == '_' || ('0' <= c && c <= '9')
}

/// Whether `c` is a decimal digit.
fn is_digit(c: char) -> (r: bool)
    ensures
        r == ('0' <= c && c <= '9'),
{
    '0' <= c && c <= '9'
}

/// Whether the characters `[from, to)` spell exactly `word`.
fn segment_matches(src: &Source, from: usize, to: usize, word: &str) -> (r: bool)
    requires
        src.wf(),
        from <= to <= src.chars@.len(),
{
    let n = word.unicode_len();
    if to - from != n {
        return false;
    }
    let len = src.chars.len();
    let mut k: usize = 0;
    while k < n
        invariant
            k <= n,
            n == word@.len(),
            from + n <= len,
            len == src.chars@.len(),
            src.wf(),
        decreases n - k,
    {
        if src.chars[from + k] != word.get_char(k) {
            return false;
        }
        k = k + 1;
    }
    true
}

/// The index after any blank characters (spaces, tabs, carriage returns).
fn skip_blanks(src: &Source, i: usize) -> (r: usize)
    requires
        src.wf(),
        i <= src.chars@.len(),
    ensures
        i <= r <= src.chars@.len(),
{
    let mut j: usize = i;
    while j < src.chars.len() && (src.chars[j] == ' ' || src.chars[j] == '\t' || src.chars[j]
        == '\r')
        invariant
            i <= j <= src.chars@.len(),
            src.wf(),
        decreases src.chars@.len() - j,
    {
        j = j + 1;
    }
    j
}

/// How many characters of a line ending stand at `i`: 1 for a newline, 2 for
/// the `\n` escape pair, 0 for anything else.
fn line_break_len(src: &Source, i: usize) -> (r: usize)
    requires
        src.wf(),
        i <= src.chars@.len(),
    ensures
        i + r <= src.chars@.len(),
        r <= 2,
{
    if i < src.chars.len() && src.chars[i] == '\n' {
        1
    } else if i < src.chars.len() && src.chars[i] == '\\' && i + 1 < src.chars.len()
        && src.chars[i + 1] == 'n' {
        2
    } else {
        0
    }
}

/// The index after any run of blanks, comments, line endings and `;`.
fn skip_separators(src: &Source, i: usize) -> (r: usize)
    requires
        src.wf(),
        i <= src.chars@.len(),
    ensures
        i <= r <= src.chars@.len(),
{
    let n = src.chars.len();
    let mut j: usize = i;
    loop
        invariant
            i <= j <= src.chars@.len(),
            n == src.chars@.len(),
            src.wf(),
        decreases src.chars@.len() - j,
    {
        let k = skip_blanks(src, j);
        let brk = line_break_len(src, k);
        if brk > 0 {
            j = k + brk;
            continue ;
        }
        if k < src.chars.len() && src.chars[k] == ';' {
            j = k + 1;
            continue ;
        }
        if k < src.chars.len() && src.chars[k] == '#' {
            let mut c: usize = k + 1;
            while c < src.chars.len() && src.chars[c] != '\n' && src.chars[c] != '\\'
                invariant
                    c <= src.chars@.len(),
                    src.wf(),
                decreases src.chars@.len() - c,
            {
                c = c + 1;
            }
            if c > j {
                j = c;
                continue ;
            }
        }
        return k;
    }
}

/// Parses one atom: a literal, a name, a parenthesised expression or a list
/// display.
fn parse_atom(src: &Source, i: usize) -> (r: Result<(Expression, usize), ParseError>)
    requires
        src.wf(),
        i <= src.chars@.len(),
    ensures
        r matches Ok(p) ==> i < p.1 <= src.chars@.len(),
    decreases src.chars@.len() - i, 0int,
{
    let start = skip_blanks(src, i);
    if start >= src.chars.len() {
        return Err(ParseError::UnexpectedEnd);
    }
    let c = src.chars[start];
    if is_digit(c) {
        let mut j: usize = start;
        let mut acc: u64 = 0;
        while j < src.chars.len() && is_digit(src.chars[j])
            invariant
                start <= j <= src.chars@.len(),
                src.wf(),
                acc <= 0x7fff_ffff,
            decreases src.chars@.len() - j,
        {
            let d: u64 = digit_value(src.chars[j]);
            acc = acc * 10 + d;
            if acc > 0x7fff_ffff {
                return Err(ParseError::NumberTooLarge { at: start });
            }
            j = j + 1;
        }
        return Ok((Expression::Number { value: acc as i32 }, j));
    }
    if c == '"' || c == '\'' {
        let mut j: usize = start + 1;
        while j < src.chars.len() && src.chars[j] != c
            invariant
                start + 1 <= j <= src.chars@.len(),
                src.wf(),
            decreases src.chars@.len() - j,
        {
            j = j + 1;
        }
        if j >= src.chars.len() {
            return Err(ParseError::UnterminatedString { at: start });
        }
        let content = src.text.as_str().substring_char(start + 1, j).to_owned();
        return Ok((Expression::String { value: content }, j + 1));
    }
    if is_name_start(c) {
        let j = scan_name(src, start);
        if segment_matches(src, start, j, "True") {
            return Ok((Expression::True, j));
        }
        if segment_matches(src, start, j, "False") {
            return Ok((Expression::False, j));
        }
        if segment_matches(src, start, j, "None") {
            return Ok((Expression::NoneLiteral, j));
        }
        let name = src.text.as_str().substring_char(start, j).to_owned();
        return Ok((Expression::Identifier { name }, j));
    }
    if c == '(' {
        match parse_expression(src, start + 1) {
            Err(e) => Err(e),
            Ok((inner, j)) => {
                let k = skip_blanks(src, j);
                if k < src.chars.len() && src.chars[k] == ')' {
                    Ok((inner, k + 1))
                } else {
                    Err(ParseError::UnexpectedCharacter { at: k })
                }
            },
        }
    } else if c == '[' {
        match parse_expression_list(src, start + 1, ']') {
            Err(e) => Err(e),
            Ok((elements, j)) => Ok((Expression::List { elements }, j)),
        }
    } else {
        Err(ParseError::UnexpectedCharacter { at: start })
    }
}

/// The numeric value of a digit character.
fn digit_value(c: char) -> (r: u64)
    ensures
        r <= 9,
{
    if c == '0' {
        0
    } else if c == '1' {
        1
    } else if c == '2' {
        2
    } else if c == '3' {
        3
    } else if c == '4' {
        4
    } else if c == '5' {
        5
    } else if c == '6' {
        6
    } else if c == '7' {
        7
    } else if c == '8' {
        8
    } else {
        9
    }
}

/// The index after the name starting at `i`.
fn scan_name(src: &Source, i: usize) -> (r: usize)
    requires
        src.wf(),
        i < src.chars@.len(),
    ensures
        i < r <= src.chars@.len(),
{
    let n = src.chars.len();
    let mut j: usize = i + 1;
    while j < src.chars.len() && is_name_char(src.chars[j])
        invariant
            i < j <= src.chars@.len(),
            n == src.chars@.len(),
            src.wf(),
        decreases src.chars@.len() - j,
    {
        j = j + 1;
    }
    j
}

/// Parses the comma-separated expressions up to and including `closing`.
fn parse_expression_list(src: &Source, i: usize, closing: char) -> (r: Result<
    (Vec<Expression>, usize),
    ParseError,
>)
    requires
        src.wf(),
        i <= src.chars@.len(),
    ensures
        r matches Ok(p) ==> i <= p.1 <= src.chars@.len(),
    decreases src.chars@.len() - i, 4int,
{
    let mut elements: Vec<Expression> = Vec::new();
    let mut j: usize = skip_blanks(src, i);
    if j < src.chars.len() && src.chars[j] == closing {
        return Ok((elements, j + 1));
    }
    loop
        invariant
            i <= j <= src.chars@.len(),
            src.wf(),
        decreases src.chars@.len() - j,
    {
        match parse_expression(src, j) {
            Err(e) => {
                return Err(e);
            },
            Ok((element, k)) => {
                elements.push(element);
                let k2 = skip_blanks(src, k);
                if k2 < src.chars.len() && src.chars[k2] == ',' {
                    j = k2 + 1;
                } else if k2 < src.chars.len() && src.chars[k2] == closing {
                    return Ok((elements, k2 + 1));
                } else {
                    return Err(ParseError::UnexpectedCharacter { at: k2 });
                }
            },
        }
    }
}

/// Parses an atom and any call postfixes after it.
fn parse_factor(src: &Source, i: usize) -> (r: Result<(Expression, usize), ParseError>)
    requires
        src.wf(),
        i <= src.chars@.len(),
    ensures
        r matches Ok(p) ==> i < p.1 <= src.chars@.len(),
    decreases src.chars@.len() - i, 1int,
{
    match parse_atom(src, i) {
        Err(e) => Err(e),
        Ok((first, j0)) => {
            let mut e = first;
            let mut j: usize = j0;
            loop
                invariant
                    i < j <= src.chars@.len(),
                    src.wf(),
                decreases src.chars@.len() - j,
            {
                let k = skip_blanks(src, j);
                if k < src.chars.len() && src.chars[k] == '(' {
                    match parse_expression_list(src, k + 1, ')') {
                        Err(er) => {
                            return Err(er);
                        },
                        Ok((args, k2)) => {
                            e = Expression::Call { function: Box::new(e), args };
                            j = k2;
                        },
                    }
                } else {
                    return Ok((e, j));
                }
            }
        },
    }
}

/// Parses a factor and any `* / // %` chain after it.
fn parse_term(src: &Source, i: usize) -> (r: Result<(Expression, usize), ParseError>)
    requires
        src.wf(),
        i <= src.chars@.len(),
    ensures
        r matches Ok(p) ==> i < p.1 <= src.chars@.len(),
    decreases src.chars@.len() - i, 2int,
{
    match parse_factor(src, i) {
        Err(e) => Err(e),
        Ok((first, j0)) => {
            let mut e = first;
            let mut j: usize = j0;
            loop
                invariant
                    i < j <= src.chars@.len(),
                    src.wf(),
                decreases src.chars@.len() - j,
            {
                let k = skip_blanks(src, j);
                if k >= src.chars.len() {
                    return Ok((e, j));
                }
                let c = src.chars[k];
                let op: Option<Operator> = if c == '*' {
                    Some(Operator::Mult)
                } else if c == '%' {
                    Some(Operator::Mod)
                } else if c == '/' {
                    if k + 1 < src.chars.len() && src.chars[k + 1] == '/' {
                        Some(Operator::FloorDiv)
                    } else {
                        Some(Operator::Div)
                    }
                } else {
                    None
                };
                match op {
                    Option::None => {
                        return Ok((e, j));
                    },
                    Option::Some(operator) => {
                        let after: usize = if operator == Operator::FloorDiv {
                            k + 2
                        } else {
                            k + 1
                        };
                        match parse_factor(src, after) {
                            Err(er) => {
                                return Err(er);
                            },
                            Ok((rhs, k2)) => {
                                e = Expression::Binop {
                                    a: Box::new(e),
                                    op: operator,
                                    b: Box::new(rhs),
                                };
                                j = k2;
                            },
                        }
                    },
                }
            }
        },
    }
}

/// Parses a term and any `+ -` chain after it.
fn parse_expression(src: &Source, i: usize) -> (r: Result<(Expression, usize), ParseError>)
    requires
        src.wf(),
        i <= src.chars@.len(),
    ensures
        r matches Ok(p) ==> i < p.1 <= src.chars@.len(),
    decreases src.chars@.len() - i, 3int,
{
    match parse_term(src, i) {
        Err(e) => Err(e),
        Ok((first, j0)) => {
            let mut e = first;
            let mut j: usize = j0;
            loop
                invariant
                    i < j <= src.chars@.len(),
                    src.wf(),
                decreases src.chars@.len() - j,
            {
                let k = skip_blanks(src, j);
                if k >= src.chars.len() {
                    return Ok((e, j));
                }
                let c = src.chars[k];
                if c == '+' || c == '-' {
                    match parse_term(src, k + 1) {
                        Err(er) => {
                            return Err(er);
                        },
                        Ok((rhs, k2)) => {
                            e = Expression::Binop {
                                a: Box::new(e),
                                op: if c == '+' {
                                    Operator::Add
                                } else {
                                    Operator::Sub
                                },
                                b: Box::new(rhs),
                            };
                            j = k2;
                        },
                    }
                } else {
                    return Ok((e, j));
                }
            }
        },
    }
}

/// Parses the comma-separated expressions of a `return` or `for` row.
fn parse_expression_row(src: &Source, i: usize) -> (r: Result<(Vec<Expression>, usize), ParseError>)
    requires
        src.wf(),
        i <= src.chars@.len(),
    ensures
        r matches Ok(p) ==> i < p.1 <= src.chars@.len(),
    decreases src.chars@.len() - i, 4int,
{
    match parse_expression(src, i) {
        Err(e) => Err(e),
        Ok((first, j0)) => {
            let mut row: Vec<Expression> = Vec::new();
            row.push(first);
            let mut j: usize = j0;
            loop
                invariant
                    i < j <= src.chars@.len(),
                    src.wf(),
                decreases src.chars@.len() - j,
            {
                let k = skip_blanks(src, j);
                if k < src.chars.len() && src.chars[k] == ',' {
                    match parse_expression(src, k + 1) {
                        Err(er) => {
                            return Err(er);
                        },
                        Ok((e, k2)) => {
                            row.push(e);
                            j = k2;
                        },
                    }
                } else {
                    return Ok((row, j));
                }
            }
        },
    }
}

/// Parses one statement.
fn parse_statement(src: &Source, i: usize) -> (r: Result<(Statement, usize), ParseError>)
    requires
        src.wf(),
        i <= src.chars@.len(),
    ensures
        r matches Ok(p) ==> i < p.1 <= src.chars@.len(),
    decreases src.chars@.len() - i, 5int,
{
    let start = skip_blanks(src, i);
    if start >= src.chars.len() {
        return Err(ParseError::UnexpectedEnd);
    }
    let c = src.chars[start];
    if is_name_start(c) {
        let w = scan_name(src, start);
        if segment_matches(src, start, w, "pass") {
            return Ok((Statement::Pass, w));
        }
        if segment_matches(src, start, w, "break") {
            return Ok((Statement::Break, w));
        }
        if segment_matches(src, start, w, "continue") {
            return Ok((Statement::Continue, w));
        }
        if segment_matches(src, start, w, "return") {
            let k = skip_blanks(src, w);
            if k >= src.chars.len() || line_break_len(src, k) > 0 || src.chars[k] == ';' {
                return Ok((Statement::Return { value: Vec::new() }, w));
            }
            match parse_expression_row(src, k) {
                Err(e) => {
                    return Err(e);
                },
                Ok((row, j)) => {
                    return Ok((Statement::Return { value: row }, j));
                },
            }
        }
        if segment_matches(src, start, w, "if") || segment_matches(src, start, w, "while") {
            let is_if = segment_matches(src, start, w, "if");
            match parse_expression(src, w) {
                Err(e) => {
                    return Err(e);
                },
                Ok((test, j)) => {
                    let k = skip_blanks(src, j);
                    if !(k < src.chars.len() && src.chars[k] == ':') {
                        return Err(ParseError::UnexpectedCharacter { at: k });
                    }
                    match parse_suite(src, k + 1) {
                        Err(e) => {
                            return Err(e);
                        },
                        Ok((body, j2)) => {
                            if is_if {
                                return Ok((Statement::If { test, body }, j2));
                            }
                            return Ok((Statement::While { test, body }, j2));
                        },
                    }
                },
            }
        }
        if segment_matches(src, start, w, "for") {
            let t = skip_blanks(src, w);
            if t >= src.chars.len() {
                return Err(ParseError::UnexpectedEnd);
            }
            if !is_name_start(src.chars[t]) {
                return Err(ParseError::UnexpectedCharacter { at: t });
            }
            let tw = scan_name(src, t);
            let name = src.text.as_str().substring_char(t, tw).to_owned();
            let k = skip_blanks(src, tw);
            if k >= src.chars.len() {
                return Err(ParseError::UnexpectedEnd);
            }
            if !is_name_start(src.chars[k]) {
                return Err(ParseError::UnexpectedCharacter { at: k });
            }
            let kw = scan_name(src, k);
            if !segment_matches(src, k, kw, "in") {
                return Err(ParseError::UnexpectedCharacter { at: k });
            }
            match parse_expression_row(src, kw) {
                Err(e) => {
                    return Err(e);
                },
                Ok((iter, j)) => {
                    let k2 = skip_blanks(src, j);
                    if !(k2 < src.chars.len() && src.chars[k2] == ':') {
                        return Err(ParseError::UnexpectedCharacter { at: k2 });
                    }
                    match parse_suite(src, k2 + 1) {
                        Err(e) => {
                            return Err(e);
                        },
                        Ok((body, j2)) => {
                            let mut target: Vec<Expression> = Vec::new();
                            target.push(Expression::Identifier { name });
                            return Ok((Statement::For { target, iter, body }, j2));
                        },
                    }
                },
            }
        }
    }
    // An expression statement, or an assignment chain.
    match parse_expression(src, start) {
        Err(e) => Err(e),
        Ok((first, j0)) => {
            let mut parts: Vec<Expression> = Vec::new();
            parts.push(first);
            let mut j: usize = j0;
            loop
                invariant
                    i < j <= src.chars@.len(),
                    src.wf(),
                    parts@.len() >= 1,
                decreases src.chars@.len() - j,
            {
                let k = skip_blanks(src, j);
                if k < src.chars.len() && src.chars[k] == '=' {
                    match parse_expression(src, k + 1) {
                        Err(er) => {
                            return Err(er);
                        },
                        Ok((e, k2)) => {
                            parts.push(e);
                            j = k2;
                        },
                    }
                } else {
                    if parts.len() == 1 {
                        match parts.pop() {
                            Option::Some(one) => {
                                return Ok((Statement::Expression { expression: one }, j));
                            },
                            Option::None => {
                                return vstd::pervasive::unreached();
                            },
                        }
                    }
                    match parts.pop() {
                        Option::Some(value) => {
                            return Ok((Statement::Assign { targets: parts, value }, j));
                        },
                        Option::None => {
                            return vstd::pervasive::unreached();
                        },
                    }
                }
            }
        },
    }
}

/// Parses a same-line suite: statements separated by `;`, up to the line's
/// end.
fn parse_suite(src: &Source, i: usize) -> (r: Result<(Vec<Statement>, usize), ParseError>)
    requires
        src.wf(),
        i <= src.chars@.len(),
    ensures
        r matches Ok(p) ==> i <= p.1 <= src.chars@.len(),
    decreases src.chars@.len() - i, 6int,
{
    let mut body: Vec<Statement> = Vec::new();
    let mut j: usize = i;
    loop
        invariant
            i <= j <= src.chars@.len(),
            src.wf(),
        decreases src.chars@.len() - j,
    {
        match parse_statement(src, j) {
            Err(e) => {
                return Err(e);
            },
            Ok((statement, k)) => {
                body.push(statement);
                let k2 = skip_blanks(src, k);
                if k2 < src.chars.len() && src.chars[k2] == ';' {
                    j = k2 + 1;
                } else {
                    return Ok((body, k2));
                }
            },
        }
    }
}

/// Parses a whole program: statements separated by line endings or `;`,
/// with comments and blank lines skipped, to the end of the text.
pub fn parse_source(source: &String) -> (r: Result<Program, ParseError>) {
    let n = source.as_str().unicode_len();
    let mut chars: Vec<char> = Vec::new();
    let mut i: usize = 0;
    while i < n
        invariant
            n == source@.len(),
            i <= n,
            chars@.len() == i,
            forall|k: int| 0 <= k < i ==> chars@[k] == source@[k],
        decreases n - i,
    {
        chars.push(source.as_str().get_char(i));
        i = i + 1;
    }
    let src = Source { text: source.clone(), chars };
    proof {
        assert(src.text@ =~= src.chars@);
    }
    let mut statements: Vec<Statement> = Vec::new();
    let mut j: usize = 0;
    loop
        invariant
            j <= src.chars@.len(),
            src.wf(),
        decreases src.chars@.len() - j,
    {
        let k = skip_separators(&src, j);
        if k >= src.chars.len() {
            return Ok(Program { statements });
        }
        match parse_statement(&src, k) {
            Err(e) => {
                return Err(e);
            },
            Ok((statement, k2)) => {
                statements.push(statement);
                j = k2;
            },
        }
    }
}

} // verus!
