//! The grammar of the language, as functions from a text to what is read from
//! its front and the text that is left.
//!
//! ```text
//! program    := (ws* statement ws*)*
//! statement  := var_decl | val_decl | assign | print
//! var_decl   := "var" ws+ ident ws* "=" ws* expr ";"
//! val_decl   := "val" ws+ ident ws* "=" ws* expr ";"
//! assign     := ident ws* ":=" ws* expr ";"
//! print      := "write" ws* "(" expr ")" ";"
//! expr       := number | string | ident
//! number     := digit+
//! string     := '"' any-char-except-quote* '"'
//! ident      := letter+
//! ```

use crate::ast::{ExprView, StatementView};
use crate::text::{decimal_value, lemma_run_length, run_length, CharClass};
use vstd::prelude::*;

verus! {

/// What a parser looked for where it failed.
#[derive(Debug, Clone, Copy, PartialEq, Eq, Structural)]
pub enum Expected {
    /// A keyword or a punctuation mark of the grammar.
    Token,
    /// At least one space, tab, carriage return or line feed.
    Whitespace,
    /// A digit.
    Digit,
    /// A letter.
    Letter,
    /// The double quote that ends a string.
    ClosingQuote,
    /// A number that fits in 32 bits.
    Number,
}

/// A failure to parse: the text at which it happened, and what was looked for.
pub struct ParseFailure {
    pub at: Seq<char>,
    pub expected: Expected,
}

/// The failure to find `expected` at the front of `at`.
pub open spec fn failure<T>(at: Seq<char>, expected: Expected) -> Result<T, ParseFailure> {
    Err(ParseFailure { at, expected })
}

/// The keyword of a mutable declaration, `var`.
pub open spec fn kw_var() -> Seq<char> {
    seq!['v', 'a', 'r']
}

/// The keyword of an immutable declaration, `val`.
pub open spec fn kw_val() -> Seq<char> {
    seq!['v', 'a', 'l']
}

/// The keyword of a print statement, `write`.
pub open spec fn kw_write() -> Seq<char> {
    seq!['w', 'r', 'i', 't', 'e']
}

/// The sign between a declared name and its value, `=`.
pub open spec fn sym_equals() -> Seq<char> {
    seq!['=']
}

/// The sign of an assignment, `:=`.
pub open spec fn sym_assign() -> Seq<char> {
    seq![':', '=']
}

/// The opening parenthesis.
pub open spec fn sym_open() -> Seq<char> {
    seq!['(']
}

/// The closing parenthesis.
pub open spec fn sym_close() -> Seq<char> {
    seq![')']
}

/// The semicolon that ends a statement.
pub open spec fn sym_end() -> Seq<char> {
    seq![';']
}

/// The double quote that starts and ends a string.
pub open spec fn sym_quote() -> Seq<char> {
    seq!['"']
}

/// `s` behind `token`, with which it must start.
pub open spec fn after_token(s: Seq<char>, token: Seq<char>) -> Result<Seq<char>, ParseFailure> {
    if token.is_prefix_of(s) {
        Ok(s.skip(token.len() as int))
    } else {
        failure(s, Expected::Token)
    }
}

/// `s` behind its leading whitespace.
pub open spec fn after_spaces(s: Seq<char>) -> Seq<char> {
    s.skip(run_length(s, CharClass::Space) as int)
}

/// `s` behind its leading whitespace, of which there must be some.
pub open spec fn after_whitespace(s: Seq<char>) -> Result<Seq<char>, ParseFailure> {
    if run_length(s, CharClass::Space) > 0 {
        Ok(after_spaces(s))
    } else {
        failure(s, Expected::Whitespace)
    }
}

/// The identifier at the front of `s`: its leading letters, at least one.
pub open spec fn identifier(s: Seq<char>) -> Result<(Seq<char>, Seq<char>), ParseFailure> {
    let n: int = run_length(s, CharClass::Letter) as int;
    if n > 0 {
        Ok((s.skip(n), s.take(n)))
    } else {
        failure(s, Expected::Letter)
    }
}

/// The number at the front of `s`: its leading digits, at least one, read in
/// base ten. A number above `i32::MAX` is a failure.
pub open spec fn number(s: Seq<char>) -> Result<(Seq<char>, ExprView), ParseFailure> {
    let n: int = run_length(s, CharClass::Digit) as int;
    if n == 0 {
        failure(s, Expected::Digit)
    } else if decimal_value(s.take(n)) > i32::MAX {
        failure(s, Expected::Number)
    } else {
        Ok((s.skip(n), ExprView::Number(decimal_value(s.take(n)) as i32)))
    }
}

/// The string at the front of `s`: a double quote, the characters up to the
/// next double quote, taken as they are, and that double quote.
pub open spec fn string(s: Seq<char>) -> Result<(Seq<char>, ExprView), ParseFailure> {
    match after_token(s, sym_quote()) {
        Err(f) => Err(f),
        Ok(body) => {
            let n: int = run_length(body, CharClass::Unquoted) as int;
            if n < body.len() {
                Ok((body.skip(n + 1), ExprView::StringLiteral(body.take(n))))
            } else {
                failure(body, Expected::ClosingQuote)
            }
        },
    }
}

/// The variable at the front of `s`: an identifier.
pub open spec fn variable(s: Seq<char>) -> Result<(Seq<char>, ExprView), ParseFailure> {
    match identifier(s) {
        Err(f) => Err(f),
        Ok((rest, name)) => Ok((rest, ExprView::Variable(name))),
    }
}

/// The expression at the front of `s`: a number, else a string, else a
/// variable. Where none is there, the failure is that of the variable.
pub open spec fn expression(s: Seq<char>) -> Result<(Seq<char>, ExprView), ParseFailure> {
    if number(s) is Ok {
        number(s)
    } else if string(s) is Ok {
        string(s)
    } else {
        variable(s)
    }
}

/// What follows the name in a declaration or an assignment: optional
/// whitespace, `symbol`, optional whitespace, an expression and `;`.
pub open spec fn bound_value(s: Seq<char>, symbol: Seq<char>) -> Result<
    (Seq<char>, ExprView),
    ParseFailure,
> {
    match after_token(after_spaces(s), symbol) {
        Err(f) => Err(f),
        Ok(s1) => match expression(after_spaces(s1)) {
            Err(f) => Err(f),
            Ok((s2, value)) => match after_token(s2, sym_end()) {
                Err(f) => Err(f),
                Ok(s3) => Ok((s3, value)),
            },
        },
    }
}

/// A declaration at the front of `s`: `keyword`, whitespace, an identifier,
/// and the value bound to it behind `=`.
pub open spec fn declaration(s: Seq<char>, keyword: Seq<char>) -> Result<
    (Seq<char>, (Seq<char>, ExprView)),
    ParseFailure,
> {
    match after_token(s, keyword) {
        Err(f) => Err(f),
        Ok(s1) => match after_whitespace(s1) {
            Err(f) => Err(f),
            Ok(s2) => match identifier(s2) {
                Err(f) => Err(f),
                Ok((s3, name)) => match bound_value(s3, sym_equals()) {
                    Err(f) => Err(f),
                    Ok((s4, value)) => Ok((s4, (name, value))),
                },
            },
        },
    }
}

/// `var name = expr;`
pub open spec fn var_decl(s: Seq<char>) -> Result<(Seq<char>, StatementView), ParseFailure> {
    match declaration(s, kw_var()) {
        Err(f) => Err(f),
        Ok((rest, (name, value))) => Ok((rest, StatementView::VarDecl(name, value))),
    }
}

/// `val name = expr;`
pub open spec fn val_decl(s: Seq<char>) -> Result<(Seq<char>, StatementView), ParseFailure> {
    match declaration(s, kw_val()) {
        Err(f) => Err(f),
        Ok((rest, (name, value))) => Ok((rest, StatementView::ValDecl(name, value))),
    }
}

/// `name := expr;`
pub open spec fn assignment(s: Seq<char>) -> Result<(Seq<char>, StatementView), ParseFailure> {
    match identifier(s) {
        Err(f) => Err(f),
        Ok((s1, name)) => match bound_value(s1, sym_assign()) {
            Err(f) => Err(f),
            Ok((s2, value)) => Ok((s2, StatementView::Assign(name, value))),
        },
    }
}

/// `write(expr);`, with optional whitespace in front of the parenthesis only.
pub open spec fn print(s: Seq<char>) -> Result<(Seq<char>, StatementView), ParseFailure> {
    match after_token(s, kw_write()) {
        Err(f) => Err(f),
        Ok(s1) => match after_token(after_spaces(s1), sym_open()) {
            Err(f) => Err(f),
            Ok(s2) => match expression(s2) {
                Err(f) => Err(f),
                Ok((s3, value)) => match after_token(s3, sym_close()) {
                    Err(f) => Err(f),
                    Ok(s4) => match after_token(s4, sym_end()) {
                        Err(f) => Err(f),
                        Ok(s5) => Ok((s5, StatementView::Print(value))),
                    },
                },
            },
        },
    }
}

/// The statement at the front of `s`: a `var` declaration, else a `val`
/// declaration, else an assignment, else a `write`. Where none is there, the
/// failure is that of the `write`.
pub open spec fn statement(s: Seq<char>) -> Result<(Seq<char>, StatementView), ParseFailure> {
    if var_decl(s) is Ok {
        var_decl(s)
    } else if val_decl(s) is Ok {
        val_decl(s)
    } else if assignment(s) is Ok {
        assignment(s)
    } else {
        print(s)
    }
}

/// A statement with optional whitespace on both sides.
pub open spec fn spaced_statement(s: Seq<char>) -> Result<(Seq<char>, StatementView), ParseFailure> {
    match statement(after_spaces(s)) {
        Err(f) => Err(f),
        Ok((rest, found)) => Ok((after_spaces(rest), found)),
    }
}

/// The statements at the front of `s`, each with optional whitespace on both
/// sides, as many as there are, and the text that is left. That text starts
/// where the first thing that is no statement starts, whitespace in front of
/// it included.
pub open spec fn statements(s: Seq<char>) -> (Seq<StatementView>, Seq<char>)
    decreases s.len(),
    via statements_terminate
{
    match spaced_statement(s) {
        Err(_) => (Seq::empty(), s),
        Ok((rest, first)) => {
            let (more, end) = statements(rest);
            (seq![first] + more, end)
        },
    }
}

#[via_fn]
proof fn statements_terminate(s: Seq<char>) {
    lemma_spaced_statement_keeps(s);
}

/// The whole of `s` as a program: its statements, where nothing is left
/// behind them; else the failure of the statement parser on what is left.
pub open spec fn program(s: Seq<char>) -> Result<Seq<StatementView>, ParseFailure> {
    let (found, rest) = statements(s);
    match spaced_statement(rest) {
        Err(f) if rest.len() > 0 => Err(f),
        _ => Ok(found),
    }
}

/// Parsing is deterministic: what is read from a text depends on the text
/// alone. Equal texts give the same statements and the same rest, and as
/// programs the same statements or the same failure.
pub proof fn lemma_parsing_is_deterministic(first: Seq<char>, second: Seq<char>)
    requires
        first == second,
    ensures
        statements(first) == statements(second),
        program(first) == program(second),
{
}

/// Whether `rest` is an end piece of `s`: what is left of `s` when some of
/// its characters, or none, are taken from its front.
pub open spec fn is_end_of(rest: Seq<char>, s: Seq<char>) -> bool {
    rest.len() <= s.len() && rest == s.skip(s.len() - rest.len())
}

/// What is left behind a number of characters is an end piece.
pub proof fn lemma_skip_is_end(s: Seq<char>, n: int)
    requires
        0 <= n <= s.len(),
    ensures
        is_end_of(s.skip(n), s),
{
}

/// An end piece of an end piece is an end piece.
pub proof fn lemma_end_of_end(inner: Seq<char>, middle: Seq<char>, s: Seq<char>)
    requires
        is_end_of(inner, middle),
        is_end_of(middle, s),
    ensures
        is_end_of(inner, s),
{
    assert(inner =~= s.skip(s.len() - inner.len()));
}

/// What is left behind leading whitespace is an end piece.
pub proof fn lemma_after_spaces(s: Seq<char>)
    ensures
        is_end_of(after_spaces(s), s),
{
    lemma_run_length(s, CharClass::Space);
}

/// What is left behind a token is an end piece, shorter by the token's
/// length; a missing token is missed at the front of the text.
pub proof fn lemma_after_token(s: Seq<char>, token: Seq<char>)
    ensures
        match after_token(s, token) {
            Ok(rest) => is_end_of(rest, s) && rest.len() + token.len() == s.len(),
            Err(f) => f.at == s,
        },
{
}

/// Whether a parser's result on `s` keeps to `s`: what it leaves is an end
/// piece of `s` and shorter than `s`, or the place of its failure is an end
/// piece of `s`.
pub open spec fn keeps_to<T>(result: Result<(Seq<char>, T), ParseFailure>, s: Seq<char>) -> bool {
    match result {
        Ok((rest, _)) => is_end_of(rest, s) && rest.len() < s.len(),
        Err(f) => is_end_of(f.at, s),
    }
}

/// A result that keeps to an end piece of `s` keeps to `s`, where the end
/// piece is what the parser was applied to.
pub proof fn lemma_keeps_to_end<T>(
    result: Result<(Seq<char>, T), ParseFailure>,
    middle: Seq<char>,
    s: Seq<char>,
)
    requires
        keeps_to(result, middle),
        is_end_of(middle, s),
    ensures
        keeps_to(result, s),
{
    match result {
        Ok((rest, _)) => lemma_end_of_end(rest, middle, s),
        Err(f) => lemma_end_of_end(f.at, middle, s),
    }
}

/// An identifier keeps to its text.
pub proof fn lemma_identifier_keeps(s: Seq<char>)
    ensures
        keeps_to(identifier(s), s),
{
    lemma_run_length(s, CharClass::Letter);
    assert(s.skip(0) =~= s);
}

/// An expression keeps to its text.
pub proof fn lemma_expression_keeps(s: Seq<char>)
    ensures
        keeps_to(expression(s), s),
{
    lemma_run_length(s, CharClass::Digit);
    lemma_identifier_keeps(s);
    if let Ok(body) = after_token(s, sym_quote()) {
        lemma_run_length(body, CharClass::Unquoted);
        let n: int = run_length(body, CharClass::Unquoted) as int;
        if n < body.len() {
            lemma_skip_is_end(body, n + 1);
            lemma_end_of_end(body.skip(n + 1), body, s);
        }
    }
}

/// What follows the name in a declaration or an assignment keeps to its text.
pub proof fn lemma_bound_value_keeps(s: Seq<char>, symbol: Seq<char>)
    ensures
        keeps_to(bound_value(s, symbol), s),
{
    let s0 = after_spaces(s);
    lemma_after_spaces(s);
    if let Ok(s1) = after_token(s0, symbol) {
        lemma_end_of_end(s1, s0, s);
        let s2 = after_spaces(s1);
        lemma_after_spaces(s1);
        lemma_end_of_end(s2, s1, s);
        lemma_expression_keeps(s2);
        lemma_keeps_to_end(expression(s2), s2, s);
        if let Ok((s3, _)) = expression(s2) {
            if let Ok(s4) = after_token(s3, sym_end()) {
                lemma_end_of_end(s4, s3, s);
            }
        }
    }
}

/// A declaration keeps to its text.
pub proof fn lemma_declaration_keeps(s: Seq<char>, keyword: Seq<char>)
    ensures
        keeps_to(declaration(s, keyword), s),
{
    assert(s.skip(0) =~= s);
    if let Ok(s1) = after_token(s, keyword) {
        lemma_after_spaces(s1);
        if let Ok(s2) = after_whitespace(s1) {
            lemma_end_of_end(s2, s1, s);
            lemma_identifier_keeps(s2);
            lemma_keeps_to_end(identifier(s2), s2, s);
            if let Ok((s3, _)) = identifier(s2) {
                lemma_bound_value_keeps(s3, sym_equals());
                lemma_keeps_to_end(bound_value(s3, sym_equals()), s3, s);
            }
        }
    }
}

/// An assignment keeps to its text.
pub proof fn lemma_assignment_keeps(s: Seq<char>)
    ensures
        keeps_to(assignment(s), s),
{
    lemma_identifier_keeps(s);
    if let Ok((s1, _)) = identifier(s) {
        lemma_bound_value_keeps(s1, sym_assign());
        lemma_keeps_to_end(bound_value(s1, sym_assign()), s1, s);
    }
}

/// A `write` keeps to its text.
pub proof fn lemma_print_keeps(s: Seq<char>)
    ensures
        keeps_to(print(s), s),
{
    assert(s.skip(0) =~= s);
    if let Ok(s1) = after_token(s, kw_write()) {
        let s1b = after_spaces(s1);
        lemma_after_spaces(s1);
        lemma_end_of_end(s1b, s1, s);
        if let Ok(s2) = after_token(s1b, sym_open()) {
            lemma_end_of_end(s2, s1b, s);
            lemma_expression_keeps(s2);
            lemma_keeps_to_end(expression(s2), s2, s);
            if let Ok((s3, _)) = expression(s2) {
                if let Ok(s4) = after_token(s3, sym_close()) {
                    lemma_end_of_end(s4, s3, s);
                    if let Ok(s5) = after_token(s4, sym_end()) {
                        lemma_end_of_end(s5, s4, s);
                    }
                }
            }
        }
    }
}

/// A statement keeps to its text: it takes up at least one character and
/// leaves an end piece, or fails at an end piece.
pub proof fn lemma_statement_keeps(s: Seq<char>)
    ensures
        keeps_to(statement(s), s),
{
    lemma_declaration_keeps(s, kw_var());
    lemma_declaration_keeps(s, kw_val());
    lemma_assignment_keeps(s);
    lemma_print_keeps(s);
}

/// A statement with whitespace round it keeps to its text.
pub proof fn lemma_spaced_statement_keeps(s: Seq<char>)
    ensures
        keeps_to(spaced_statement(s), s),
{
    let s0 = after_spaces(s);
    lemma_after_spaces(s);
    lemma_statement_keeps(s0);
    lemma_keeps_to_end(statement(s0), s0, s);
    if let Ok((s1, _)) = statement(s0) {
        lemma_after_spaces(s1);
        lemma_end_of_end(after_spaces(s1), s1, s);
    }
}

/// The text that `statements` leaves is an end piece of the text, and does
/// not start with a statement, with or without whitespace in front of it.
pub proof fn lemma_statements_rest(s: Seq<char>)
    ensures
        is_end_of(statements(s).1, s),
        spaced_statement(statements(s).1) is Err,
    decreases s.len(),
{
    lemma_spaced_statement_keeps(s);
    if let Ok((rest, _)) = spaced_statement(s) {
        lemma_statements_rest(rest);
        lemma_end_of_end(statements(rest).1, rest, s);
    } else {
        assert(s.skip(0) =~= s);
    }
}

/// A program fails only where text is left behind its statements, and the
/// place of the failure is an end piece of the text.
pub proof fn lemma_program_failure(s: Seq<char>)
    ensures
        program(s) is Err <==> statements(s).1.len() > 0,
        program(s) matches Err(f) ==> is_end_of(f.at, s),
{
    let rest = statements(s).1;
    lemma_statements_rest(s);
    lemma_spaced_statement_keeps(rest);
    if let Err(f) = spaced_statement(rest) {
        lemma_end_of_end(f.at, rest, s);
    }
}

} // verus!
