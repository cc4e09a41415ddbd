//! The parser: from source text to statements.
//!
//! Each function reads one construct of the grammar from the front of its
//! input. It returns the text behind the construct together with what it
//! read, or the place at which it failed and what it looked for there.

use crate::ast::{statement_views, Expr, Statement, StatementView};
use crate::grammar::{
    after_spaces, after_token, after_whitespace, assignment, bound_value, declaration, expression,
    identifier, kw_val, kw_var, kw_write, lemma_spaced_statement_keeps, number, print, program,
    spaced_statement, statement, statements, string, sym_assign, sym_close, sym_end, sym_equals,
    sym_open, sym_quote, val_decl, var_decl, variable, Expected, ParseFailure,
};
use crate::text::{
    all_in_class, decimal_value, in_class, lemma_decimal_value_prefix, lemma_run_length,
    lemma_run_length_unique, run_length, CharClass,
};
use crate::tokens::{take_digits, take_letters, take_spaces, take_tag, take_until};
use vstd::prelude::*;

verus! {

/// A failure to parse: the input from the place of the failure on, and what
/// was looked for there.
#[derive(Debug, Clone, Copy, PartialEq, Eq)]
pub struct ParseError<'a> {
    pub at: &'a str,
    pub expected: Expected,
}

impl<'a> View for ParseError<'a> {
    type V = ParseFailure;

    open spec fn view(&self) -> ParseFailure {
        ParseFailure { at: self.at@, expected: self.expected }
    }
}

/// A parser's result with each part as its view.
pub open spec fn parsed_view<'a, T: View>(result: Result<(&'a str, T), ParseError<'a>>) -> Result<
    (Seq<char>, T::V),
    ParseFailure,
> {
    match result {
        Ok((rest, found)) => Ok((rest@, found@)),
        Err(error) => Err(error@),
    }
}

/// The result of a parser that reads nothing but the text, as views.
pub open spec fn rest_view<'a>(result: Result<&'a str, ParseError<'a>>) -> Result<
    Seq<char>,
    ParseFailure,
> {
    match result {
        Ok(rest) => Ok(rest@),
        Err(error) => Err(error@),
    }
}

/// Reads `token`.
fn expect_token<'a>(input: &'a str, token: &str) -> (result: Result<&'a str, ParseError<'a>>)
    ensures
        rest_view(result) == after_token(input@, token@),
{
    match take_tag(input, token) {
        Some((rest, _)) => Ok(rest),
        None => Err(ParseError { at: input, expected: Expected::Token }),
    }
}

/// Reads whitespace, if there is any.
fn skip_spaces<'a>(input: &'a str) -> (rest: &'a str)
    ensures
        rest@ == after_spaces(input@),
{
    match take_spaces(input) {
        Some((rest, _)) => rest,
        None => input,
    }
}

/// Reads whitespace, of which there must be some.
fn expect_whitespace<'a>(input: &'a str) -> (result: Result<&'a str, ParseError<'a>>)
    ensures
        rest_view(result) == after_whitespace(input@),
{
    proof {
        lemma_run_length(input@, CharClass::Space);
    }
    match take_spaces(input) {
        Some((rest, found)) => {
            if found.is_empty() {
                Err(ParseError { at: input, expected: Expected::Whitespace })
            } else {
                Ok(rest)
            }
        },
        None => Err(ParseError { at: input, expected: Expected::Whitespace }),
    }
}

/// Reads an identifier.
fn parse_identifier<'a>(input: &'a str) -> (result: Result<(&'a str, String), ParseError<'a>>)
    ensures
        parsed_view(result) == identifier(input@),
{
    match take_letters(input) {
        Some((rest, found)) => Ok((rest, found.to_owned())),
        None => Err(ParseError { at: input, expected: Expected::Letter }),
    }
}

/// The number that `digits` denotes in base ten, where it fits in 32 bits.
fn digits_value(digits: &str) -> (value: Option<i32>)
    requires
        all_in_class(digits@, CharClass::Digit),
    ensures
        value == (if decimal_value(digits@) <= i32::MAX {
            Some(decimal_value(digits@) as i32)
        } else {
            None::<i32>
        }),
{
    let mut value: i32 = 0;
    for c in iter: digits.chars()
        invariant
            iter.seq() == digits@,
            all_in_class(digits@, CharClass::Digit),
            value == decimal_value(digits@.take(iter.index())),
    {
        let ghost i: int = iter.index();
        proof {
            assert(digits@.take(i + 1).drop_last() =~= digits@.take(i));
            lemma_decimal_value_prefix(digits@, i + 1);
        }
        let digit: i32 = (c as u32 - '0' as u32) as i32;
        value = match value.checked_mul(10) {
            Some(tens) => match tens.checked_add(digit) {
                Some(sum) => sum,
                None => {
                    return None;
                },
            },
            None => {
                return None;
            },
        };
    }
    assert(digits@.take(digits@.len() as int) =~= digits@);
    Some(value)
}

/// Where no double quote stands in front of place `n` of `body`, and one stands
/// at that place or `body` ends there, the characters in front of that place
/// are the run of characters other than the double quote.
proof fn lemma_first_quote(body: Seq<char>, n: int)
    requires
        0 <= n <= body.len(),
        forall|k: int| 0 <= k < n ==> !sym_quote().is_prefix_of(#[trigger] body.skip(k)),
        n < body.len() ==> body[n] == '"',
    ensures
        run_length(body, CharClass::Unquoted) == n,
{
    assert forall|i: int| 0 <= i < n implies in_class(
        CharClass::Unquoted,
        #[trigger] body.take(n)[i],
    ) by {
        assert(!sym_quote().is_prefix_of(body.skip(i)));
        if body[i] == '"' {
            assert(body.skip(i).subrange(0, 1) =~= sym_quote());
        }
    }
    lemma_run_length_unique(body, CharClass::Unquoted, n);
}

/// Parses a number: a run of digits, read in base ten.
pub fn parse_number<'a>(input: &'a str) -> (result: Result<(&'a str, Expr), ParseError<'a>>)
    ensures
        parsed_view(result) == number(input@),
{
    proof {
        lemma_run_length(input@, CharClass::Digit);
    }
    match take_digits(input) {
        None => Err(ParseError { at: input, expected: Expected::Digit }),
        Some((rest, digits)) => match digits_value(digits) {
            Some(n) => Ok((rest, Expr::Number(n))),
            None => Err(ParseError { at: input, expected: Expected::Number }),
        },
    }
}

/// Parses a string literal: the text between two double quotes, as it is.
pub fn parse_string<'a>(input: &'a str) -> (result: Result<(&'a str, Expr), ParseError<'a>>)
    ensures
        parsed_view(result) == string(input@),
{
    proof {
        reveal_strlit("\"");
    }
    let body = expect_token(input, "\"")?;
    match take_until(body, "\"") {
        None => {
            proof {
                lemma_first_quote(body@, body@.len() as int);
            }
            Err(ParseError { at: body, expected: Expected::ClosingQuote })
        },
        Some((rest, found)) => {
            proof {
                let n: int = found@.len() as int;
                assert(body@.take(n) =~= found@);
                assert(rest@.subrange(0, 1)[0] == sym_quote()[0]);
                lemma_first_quote(body@, n);
                assert(rest@.skip(1) =~= body@.skip(n + 1));
            }
            let rest = expect_token(rest, "\"")?;
            Ok((rest, Expr::StringLiteral(found.to_owned())))
        },
    }
}

/// Parses a variable: an identifier.
pub fn parse_variable<'a>(input: &'a str) -> (result: Result<(&'a str, Expr), ParseError<'a>>)
    ensures
        parsed_view(result) == variable(input@),
{
    let (rest, name) = parse_identifier(input)?;
    Ok((rest, Expr::Variable(name)))
}

/// Parses an expression: a number, else a string, else a variable.
pub fn parse_expr<'a>(input: &'a str) -> (result: Result<(&'a str, Expr), ParseError<'a>>)
    ensures
        parsed_view(result) == expression(input@),
{
    match parse_number(input) {
        Ok(parsed) => Ok(parsed),
        Err(_) => match parse_string(input) {
            Ok(parsed) => Ok(parsed),
            Err(_) => parse_variable(input),
        },
    }
}

/// Reads what follows the name in a declaration or an assignment.
fn parse_bound_value<'a>(input: &'a str, symbol: &str) -> (result: Result<
    (&'a str, Expr),
    ParseError<'a>,
>)
    ensures
        parsed_view(result) == bound_value(input@, symbol@),
{
    proof {
        reveal_strlit(";");
    }
    let input = skip_spaces(input);
    let input = expect_token(input, symbol)?;
    let input = skip_spaces(input);
    let (input, value) = parse_expr(input)?;
    let input = expect_token(input, ";")?;
    Ok((input, value))
}

/// Reads a declaration that starts with `keyword`.
fn parse_declaration<'a>(input: &'a str, keyword: &str) -> (result: Result<
    (&'a str, (String, Expr)),
    ParseError<'a>,
>)
    ensures
        parsed_view(result) == declaration(input@, keyword@),
{
    proof {
        reveal_strlit("=");
    }
    let input = expect_token(input, keyword)?;
    let input = expect_whitespace(input)?;
    let (input, var_name) = parse_identifier(input)?;
    let (input, value) = parse_bound_value(input, "=")?;
    Ok((input, (var_name, value)))
}

/// Parses `var name = expr;`.
pub fn parse_var<'a>(input: &'a str) -> (result: Result<(&'a str, Statement), ParseError<'a>>)
    ensures
        parsed_view(result) == var_decl(input@),
{
    proof {
        reveal_strlit("var");
    }
    let (input, (var_name, expr)) = parse_declaration(input, "var")?;
    Ok((input, Statement::VarDecl(var_name, expr)))
}

/// Parses `val name = expr;`.
pub fn parse_val<'a>(input: &'a str) -> (result: Result<(&'a str, Statement), ParseError<'a>>)
    ensures
        parsed_view(result) == val_decl(input@),
{
    proof {
        reveal_strlit("val");
    }
    let (input, (var_name, expr)) = parse_declaration(input, "val")?;
    Ok((input, Statement::ValDecl(var_name, expr)))
}

/// Parses `name := expr;`.
pub fn parse_assign<'a>(input: &'a str) -> (result: Result<(&'a str, Statement), ParseError<'a>>)
    ensures
        parsed_view(result) == assignment(input@),
{
    proof {
        reveal_strlit(":=");
    }
    let (input, var_name) = parse_identifier(input)?;
    let (input, expr) = parse_bound_value(input, ":=")?;
    Ok((input, Statement::Assign(var_name, expr)))
}

/// Parses `write(expr);`.
pub fn parse_print<'a>(input: &'a str) -> (result: Result<(&'a str, Statement), ParseError<'a>>)
    ensures
        parsed_view(result) == print(input@),
{
    proof {
        reveal_strlit("write");
        reveal_strlit("(");
        reveal_strlit(")");
        reveal_strlit(";");
    }
    let input = expect_token(input, "write")?;
    let input = skip_spaces(input);
    let input = expect_token(input, "(")?;
    let (input, expr) = parse_expr(input)?;
    let input = expect_token(input, ")")?;
    let input = expect_token(input, ";")?;
    Ok((input, Statement::Print(expr)))
}

/// Parses a statement: a `var` declaration, else a `val` declaration, else an
/// assignment, else a `write`.
pub fn parse_statement<'a>(input: &'a str) -> (result: Result<(&'a str, Statement), ParseError<'a>>)
    ensures
        parsed_view(result) == statement(input@),
{
    match parse_var(input) {
        Ok(parsed) => Ok(parsed),
        Err(_) => match parse_val(input) {
            Ok(parsed) => Ok(parsed),
            Err(_) => match parse_assign(input) {
                Ok(parsed) => Ok(parsed),
                Err(_) => parse_print(input),
            },
        },
    }
}

/// Reads a statement and the whitespace on both sides of it.
fn parse_spaced_statement<'a>(input: &'a str) -> (result: Result<
    (&'a str, Statement),
    ParseError<'a>,
>)
    ensures
        parsed_view(result) == spaced_statement(input@),
{
    let (rest, found) = parse_statement(skip_spaces(input))?;
    Ok((skip_spaces(rest), found))
}

/// Reads statements until something is no statement. Returns the text from
/// there on, the statements, and the failure that ended the reading.
fn parse_sequence<'a>(input: &'a str) -> (result: (&'a str, Vec<Statement>, ParseError<'a>))
    ensures
        (statement_views(result.1@), result.0@) == statements(input@),
        spaced_statement(result.0@) == Err::<(Seq<char>, StatementView), _>(result.2@),
{
    let mut rest = input;
    let mut found: Vec<Statement> = Vec::new();
    loop
        invariant
            statements(input@) == (
                statement_views(found@) + statements(rest@).0,
                statements(rest@).1,
            ),
        decreases rest@.len(),
    {
        proof {
            lemma_spaced_statement_keeps(rest@);
        }
        match parse_spaced_statement(rest) {
            Err(error) => {
                return (rest, found, error);
            },
            Ok((next, first)) => {
                let ghost before = found@;
                found.push(first);
                proof {
                    assert(statement_views(found@) + statements(next@).0 =~= statement_views(before)
                        + (seq![first@] + statements(next@).0));
                }
                rest = next;
            },
        }
    }
}

/// Parses the statements at the front of `input`, as many as there are.
///
/// This never fails. Text that is no statement is handed back as the rest,
/// together with the statements in front of it; [`parse_program`] is the form
/// that takes such text for an error.
pub fn parse_statements<'a>(input: &'a str) -> (result: Result<
    (&'a str, Vec<Statement>),
    ParseError<'a>,
>)
    ensures
        result matches Ok((rest, found)) && (statement_views(found@), rest@) == statements(input@),
{
    let (rest, found, _) = parse_sequence(input);
    Ok((rest, found))
}

/// Parses the whole of `input` as a program. Where text is left behind the
/// statements, the result is the failure of the statement parser on that text.
pub fn parse_program<'a>(input: &'a str) -> (result: Result<Vec<Statement>, ParseError<'a>>)
    ensures
        match result {
            Ok(found) => program(input@) == Ok::<_, ParseFailure>(statement_views(found@)),
            Err(error) => program(input@) == Err::<Seq<StatementView>, _>(error@),
        },
{
    let (rest, found, error) = parse_sequence(input);
    if rest.is_empty() {
        Ok(found)
    } else {
        Err(error)
    }
}

} // verus!
