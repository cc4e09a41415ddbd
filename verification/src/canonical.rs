//! The canonical source text of a program, and the proof that parsing it gives
//! the program back.

use crate::ast::{ExprView, StatementView};
use crate::grammar::{
    after_spaces, after_token, after_whitespace, assignment, bound_value, declaration, expression,
    identifier, kw_val, kw_var, kw_write, lemma_spaced_statement_keeps, print, program,
    spaced_statement, statement, statements, sym_assign, sym_close, sym_end, sym_equals, sym_open,
    sym_quote, val_decl, var_decl, ParseFailure,
};
use crate::text::{
    all_in_class, decimal_digits, in_class, lemma_decimal_digits, lemma_run_length,
    lemma_run_of_concat, run_length, CharClass,
};
use vstd::prelude::*;

verus! {

/// A single space.
pub open spec fn space() -> Seq<char> {
    seq![' ']
}

/// Whether `name` can be written as an identifier: letters, at least one.
pub open spec fn writable_name(name: Seq<char>) -> bool {
    name.len() > 0 && all_in_class(name, CharClass::Letter)
}

/// Whether `expr` can be written in the grammar: a number that is not
/// negative, a string without a double quote, or a variable with a writable
/// name. An operation cannot.
pub open spec fn writable_expr(expr: ExprView) -> bool {
    match expr {
        ExprView::Number(n) => n >= 0,
        ExprView::StringLiteral(text) => all_in_class(text, CharClass::Unquoted),
        ExprView::Variable(name) => writable_name(name),
        ExprView::BinaryOp(_, _, _) => false,
    }
}

/// Whether `statement` can be written in the grammar.
pub open spec fn writable_statement(statement: StatementView) -> bool {
    match statement {
        StatementView::VarDecl(name, value) => writable_name(name) && writable_expr(value),
        StatementView::ValDecl(name, value) => writable_name(name) && writable_expr(value),
        StatementView::Assign(name, value) => writable_name(name) && writable_expr(value),
        StatementView::Print(value) => writable_expr(value),
    }
}

/// Whether each statement of `listing` can be written in the grammar.
pub open spec fn writable_program(listing: Seq<StatementView>) -> bool {
    forall|i: int| 0 <= i < listing.len() ==> writable_statement(#[trigger] listing[i])
}

/// The canonical text of an expression: a number in decimal notation without
/// leading zeros, a string between double quotes, a variable as its name.
pub open spec fn expr_text(expr: ExprView) -> Seq<char> {
    match expr {
        ExprView::Number(n) => decimal_digits(n as nat),
        ExprView::StringLiteral(text) => sym_quote() + (text + sym_quote()),
        ExprView::Variable(name) => name,
        ExprView::BinaryOp(_, _, _) => Seq::empty(),
    }
}

/// ` symbol expr;` and then `tail`.
pub open spec fn value_then(symbol: Seq<char>, value: ExprView, tail: Seq<char>) -> Seq<char> {
    space() + (symbol + (space() + (expr_text(value) + (sym_end() + tail))))
}

/// The canonical text of a statement, and then `tail`:
/// `var name = expr;`, `val name = expr;`, `name := expr;` or `write(expr);`.
pub open spec fn statement_then(statement: StatementView, tail: Seq<char>) -> Seq<char> {
    match statement {
        StatementView::VarDecl(name, value) => kw_var() + (space() + (name + value_then(
            sym_equals(),
            value,
            tail,
        ))),
        StatementView::ValDecl(name, value) => kw_val() + (space() + (name + value_then(
            sym_equals(),
            value,
            tail,
        ))),
        StatementView::Assign(name, value) => name + value_then(sym_assign(), value, tail),
        StatementView::Print(value) => kw_write() + (sym_open() + (expr_text(value) + (sym_close()
            + (sym_end() + tail)))),
    }
}

/// The canonical text of a statement.
pub open spec fn statement_text(statement: StatementView) -> Seq<char> {
    statement_then(statement, Seq::empty())
}

/// The canonical text of a program: the text of each statement, in order, each
/// followed by `separator`.
pub open spec fn program_text(listing: Seq<StatementView>, separator: Seq<char>) -> Seq<char>
    decreases listing.len(),
{
    if listing.len() == 0 {
        Seq::empty()
    } else {
        statement_then(listing[0], separator + program_text(listing.skip(1), separator))
    }
}

/// Appending to two texts in a row is appending what the second and the third
/// make together.
proof fn lemma_append_twice(a: Seq<char>, b: Seq<char>, c: Seq<char>)
    ensures
        (a + b) + c == a + (b + c),
{
    assert((a + b) + c =~= a + (b + c));
}

/// ` symbol expr;` and then `tail` is ` symbol expr;` with `tail` appended.
proof fn lemma_value_then(symbol: Seq<char>, value: ExprView, tail: Seq<char>)
    ensures
        value_then(symbol, value, tail) == value_then(symbol, value, Seq::empty()) + tail,
{
    let none = Seq::<char>::empty();
    let s4 = sym_end() + none;
    let s3 = expr_text(value) + s4;
    let s2 = space() + s3;
    let s1 = symbol + s2;
    assert(s4 + tail =~= sym_end() + tail);
    lemma_append_twice(expr_text(value), s4, tail);
    lemma_append_twice(space(), s3, tail);
    lemma_append_twice(symbol, s2, tail);
    lemma_append_twice(space(), s1, tail);
}

/// The text of a statement and then `tail` is the text of the statement with
/// `tail` appended.
pub proof fn lemma_statement_then(statement: StatementView, tail: Seq<char>)
    ensures
        statement_then(statement, tail) == statement_text(statement) + tail,
{
    let none = Seq::<char>::empty();
    match statement {
        StatementView::VarDecl(name, value) => {
            let s2 = value_then(sym_equals(), value, none);
            lemma_value_then(sym_equals(), value, tail);
            lemma_append_twice(name, s2, tail);
            lemma_append_twice(space(), name + s2, tail);
            lemma_append_twice(kw_var(), space() + (name + s2), tail);
        },
        StatementView::ValDecl(name, value) => {
            let s2 = value_then(sym_equals(), value, none);
            lemma_value_then(sym_equals(), value, tail);
            lemma_append_twice(name, s2, tail);
            lemma_append_twice(space(), name + s2, tail);
            lemma_append_twice(kw_val(), space() + (name + s2), tail);
        },
        StatementView::Assign(name, value) => {
            lemma_value_then(sym_assign(), value, tail);
            lemma_append_twice(name, value_then(sym_assign(), value, none), tail);
        },
        StatementView::Print(value) => {
            let s4 = sym_end() + none;
            let s3 = sym_close() + s4;
            let s2 = expr_text(value) + s3;
            let s1 = sym_open() + s2;
            assert(s4 + tail =~= sym_end() + tail);
            lemma_append_twice(sym_close(), s4, tail);
            lemma_append_twice(expr_text(value), s3, tail);
            lemma_append_twice(sym_open(), s2, tail);
            lemma_append_twice(kw_write(), s1, tail);
        },
    }
}

/// A text that starts with `token` has the rest of the text behind it.
proof fn lemma_token_found(token: Seq<char>, tail: Seq<char>)
    ensures
        after_token(token + tail, token) == Ok::<_, ParseFailure>(tail),
{
    let s = token + tail;
    assert(s.subrange(0, token.len() as int) =~= token);
    assert(s.skip(token.len() as int) =~= tail);
}

/// A text whose first character is not that of `token` does not start with it.
proof fn lemma_token_missing(s: Seq<char>, token: Seq<char>)
    requires
        token.len() > 0,
        s.len() == 0 || s[0] != token[0],
    ensures
        after_token(s, token) is Err,
{
    if token.is_prefix_of(s) {
        assert(s.subrange(0, token.len() as int)[0] == s[0]);
    }
}

/// Whitespace in front of a text that does not start with whitespace is what
/// `after_spaces` drops.
proof fn lemma_spaces_dropped(spaces: Seq<char>, tail: Seq<char>)
    requires
        all_in_class(spaces, CharClass::Space),
        tail.len() > 0 ==> !in_class(CharClass::Space, tail[0]),
    ensures
        after_spaces(spaces + tail) == tail,
        run_length(spaces + tail, CharClass::Space) == spaces.len(),
{
    lemma_run_of_concat(spaces, tail, CharClass::Space);
}

/// A text that does not start with whitespace is its own `after_spaces`.
proof fn lemma_no_spaces(s: Seq<char>)
    requires
        s.len() > 0 ==> !in_class(CharClass::Space, s[0]),
    ensures
        after_spaces(s) == s,
{
    assert(s.skip(0) =~= s);
}

/// The text of a writable expression is not empty, and starts with a digit, a
/// double quote or a letter.
proof fn lemma_expr_text_start(expr: ExprView)
    requires
        writable_expr(expr),
    ensures
        expr_text(expr).len() > 0,
        match expr {
            ExprView::Number(_) => in_class(CharClass::Digit, expr_text(expr)[0]),
            ExprView::StringLiteral(_) => expr_text(expr)[0] == '"',
            _ => in_class(CharClass::Letter, expr_text(expr)[0]),
        },
{
    match expr {
        ExprView::Number(n) => {
            lemma_decimal_digits(n as nat);
        },
        _ => {},
    }
}

/// The text of a writable expression, in front of a text that starts with
/// neither a digit nor a letter, parses to the expression and leaves that text.
proof fn lemma_expression_round_trip(expr: ExprView, tail: Seq<char>)
    requires
        writable_expr(expr),
        tail.len() > 0 ==> !in_class(CharClass::Digit, tail[0]) && !in_class(
            CharClass::Letter,
            tail[0],
        ),
    ensures
        expression(expr_text(expr) + tail) == Ok::<_, ParseFailure>((tail, expr)),
{
    let s = expr_text(expr) + tail;
    lemma_expr_text_start(expr);
    assert(s[0] == expr_text(expr)[0]);
    match expr {
        ExprView::Number(n) => {
            lemma_decimal_digits(n as nat);
            lemma_run_of_concat(expr_text(expr), tail, CharClass::Digit);
        },
        ExprView::StringLiteral(text) => {
            assert(run_length(s, CharClass::Digit) == 0);
            let body = text + (sym_quote() + tail);
            assert(s =~= sym_quote() + body);
            lemma_token_found(sym_quote(), body);
            lemma_run_of_concat(text, sym_quote() + tail, CharClass::Unquoted);
            assert(body.skip(text.len() as int + 1) =~= tail);
        },
        ExprView::Variable(name) => {
            assert(run_length(s, CharClass::Digit) == 0);
            lemma_token_missing(s, sym_quote());
            lemma_run_of_concat(name, tail, CharClass::Letter);
        },
        ExprView::BinaryOp(_, _, _) => {},
    }
}

/// ` symbol expr;` parses as the value bound behind `symbol`.
proof fn lemma_value_round_trip(symbol: Seq<char>, value: ExprView, tail: Seq<char>)
    requires
        writable_expr(value),
        symbol == sym_equals() || symbol == sym_assign(),
    ensures
        bound_value(value_then(symbol, value, tail), symbol) == Ok::<_, ParseFailure>(
            (tail, value),
        ),
{
    let s4 = sym_end() + tail;
    let s3 = expr_text(value) + s4;
    let s2 = space() + s3;
    let s1 = symbol + s2;
    lemma_expr_text_start(value);
    assert(s1[0] == symbol[0]);
    lemma_spaces_dropped(space(), s1);
    lemma_token_found(symbol, s2);
    assert(s3[0] == expr_text(value)[0]);
    lemma_spaces_dropped(space(), s3);
    assert(s4[0] == ';');
    lemma_expression_round_trip(value, s4);
    lemma_token_found(sym_end(), tail);
}

/// `keyword name = expr;` parses as a declaration.
proof fn lemma_declaration_round_trip(
    keyword: Seq<char>,
    name: Seq<char>,
    value: ExprView,
    tail: Seq<char>,
)
    requires
        writable_name(name),
        writable_expr(value),
    ensures
        declaration(keyword + (space() + (name + value_then(sym_equals(), value, tail))), keyword)
            == Ok::<_, ParseFailure>((tail, (name, value))),
{
    let s3 = value_then(sym_equals(), value, tail);
    let s2 = name + s3;
    let s1 = space() + s2;
    lemma_token_found(keyword, s1);
    assert(s2[0] == name[0]);
    lemma_spaces_dropped(space(), s2);
    assert(s3[0] == ' ');
    lemma_run_of_concat(name, s3, CharClass::Letter);
    lemma_value_round_trip(sym_equals(), value, tail);
}

/// A text that starts with a name and ` :=` is no declaration.
proof fn lemma_assignment_is_no_declaration(
    keyword: Seq<char>,
    name: Seq<char>,
    value: ExprView,
    tail: Seq<char>,
)
    requires
        writable_name(name),
        keyword == kw_var() || keyword == kw_val(),
    ensures
        declaration(name + value_then(sym_assign(), value, tail), keyword) is Err,
{
    let rest = value_then(sym_assign(), value, tail);
    let after_space = sym_assign() + (space() + (expr_text(value) + (sym_end() + tail)));
    let s = name + rest;
    assert(rest =~= space() + after_space);
    if let Ok(s1) = after_token(s, keyword) {
        assert(s1 == s.skip(3));
        if name.len() > 3 {
            assert(s1[0] == name[3]);
            assert(in_class(CharClass::Letter, name[3]));
            assert(run_length(s1, CharClass::Space) == 0);
        } else {
            assert(keyword.len() == 3);
            assert(forall|i: int| 0 <= i < 3 ==> s.subrange(0, 3)[i] == s[i]);
            if name.len() < 3 {
                assert(s[name.len() as int] == ' ');
                assert(keyword[name.len() as int] != ' ');
                assert(s.subrange(0, 3)[name.len() as int] == keyword[name.len() as int]);
            }
            assert(name.len() == 3);
            assert(s1 =~= rest);
            assert(after_space[0] == ':');
            lemma_spaces_dropped(space(), after_space);
            assert(after_whitespace(s1) == Ok::<_, ParseFailure>(after_space));
            assert(run_length(after_space, CharClass::Letter) == 0);
        }
    }
}

/// `var name = expr;` parses as a `var` declaration.
proof fn lemma_var_round_trip(name: Seq<char>, value: ExprView, tail: Seq<char>)
    requires
        writable_name(name),
        writable_expr(value),
    ensures
        statement(statement_then(StatementView::VarDecl(name, value), tail)) == Ok::<
            _,
            ParseFailure,
        >((tail, StatementView::VarDecl(name, value))),
{
    lemma_declaration_round_trip(kw_var(), name, value, tail);
}

/// `val name = expr;` parses as a `val` declaration.
proof fn lemma_val_round_trip(name: Seq<char>, value: ExprView, tail: Seq<char>)
    requires
        writable_name(name),
        writable_expr(value),
    ensures
        statement(statement_then(StatementView::ValDecl(name, value), tail)) == Ok::<
            _,
            ParseFailure,
        >((tail, StatementView::ValDecl(name, value))),
{
    let s = statement_then(StatementView::ValDecl(name, value), tail);
    lemma_declaration_round_trip(kw_val(), name, value, tail);
    assert(after_token(s, kw_var()) is Err) by {
        if kw_var().is_prefix_of(s) {
            assert(s.subrange(0, 3)[2] == s[2]);
        }
    }
    assert(var_decl(s) is Err);
}

/// `name := expr;` parses as an assignment.
proof fn lemma_assign_round_trip(name: Seq<char>, value: ExprView, tail: Seq<char>)
    requires
        writable_name(name),
        writable_expr(value),
    ensures
        statement(statement_then(StatementView::Assign(name, value), tail)) == Ok::<
            _,
            ParseFailure,
        >((tail, StatementView::Assign(name, value))),
{
    let s = statement_then(StatementView::Assign(name, value), tail);
    let rest = value_then(sym_assign(), value, tail);
    lemma_assignment_is_no_declaration(kw_var(), name, value, tail);
    lemma_assignment_is_no_declaration(kw_val(), name, value, tail);
    assert(var_decl(s) is Err);
    assert(val_decl(s) is Err);
    assert(rest[0] == ' ');
    lemma_run_of_concat(name, rest, CharClass::Letter);
    lemma_value_round_trip(sym_assign(), value, tail);
    assert(assignment(s) == Ok::<_, ParseFailure>(
        (tail, StatementView::Assign(name, value)),
    ));
}

/// `write(expr);` is no assignment.
proof fn lemma_print_is_no_assignment(value: ExprView, tail: Seq<char>)
    ensures
        assignment(statement_then(StatementView::Print(value), tail)) is Err,
{
    let s = statement_then(StatementView::Print(value), tail);
    let s1 = sym_open() + (expr_text(value) + (sym_close() + (sym_end() + tail)));
    assert(s1[0] == '(');
    lemma_run_of_concat(kw_write(), s1, CharClass::Letter);
    lemma_no_spaces(s1);
    lemma_token_missing(s1, sym_assign());
}

/// `write(expr);` is no declaration.
proof fn lemma_print_is_no_declaration(value: ExprView, tail: Seq<char>)
    ensures
        var_decl(statement_then(StatementView::Print(value), tail)) is Err,
        val_decl(statement_then(StatementView::Print(value), tail)) is Err,
{
    let s = statement_then(StatementView::Print(value), tail);
    assert(s[0] == 'w');
    lemma_token_missing(s, kw_var());
    lemma_token_missing(s, kw_val());
}

/// `write(expr);` is read by the parser of `write`.
proof fn lemma_print_found(value: ExprView, tail: Seq<char>)
    requires
        writable_expr(value),
    ensures
        print(statement_then(StatementView::Print(value), tail)) == Ok::<
            _,
            ParseFailure,
        >((tail, StatementView::Print(value))),
{
    let s4 = sym_end() + tail;
    let s3 = sym_close() + s4;
    let s2 = expr_text(value) + s3;
    let s1 = sym_open() + s2;
    lemma_token_found(kw_write(), s1);
    assert(s1[0] == '(');
    lemma_no_spaces(s1);
    lemma_token_found(sym_open(), s2);
    assert(s3[0] == ')');
    lemma_expression_round_trip(value, s3);
    lemma_token_found(sym_close(), s4);
    lemma_token_found(sym_end(), tail);
}

/// `write(expr);` parses as a `write`.
proof fn lemma_print_round_trip(value: ExprView, tail: Seq<char>)
    requires
        writable_expr(value),
    ensures
        statement(statement_then(StatementView::Print(value), tail)) == Ok::<
            _,
            ParseFailure,
        >((tail, StatementView::Print(value))),
{
    lemma_print_is_no_declaration(value, tail);
    lemma_print_is_no_assignment(value, tail);
    lemma_print_found(value, tail);
}

/// The text of a writable statement, in front of any text, parses to the
/// statement and leaves that text.
pub proof fn lemma_statement_round_trip(found: StatementView, tail: Seq<char>)
    requires
        writable_statement(found),
    ensures
        statement(statement_then(found, tail)) == Ok::<_, ParseFailure>(
            (tail, found),
        ),
{
    match found {
        StatementView::VarDecl(name, value) => lemma_var_round_trip(name, value, tail),
        StatementView::ValDecl(name, value) => lemma_val_round_trip(name, value, tail),
        StatementView::Assign(name, value) => lemma_assign_round_trip(name, value, tail),
        StatementView::Print(value) => lemma_print_round_trip(value, tail),
    }
}

/// The text of a writable statement starts with a letter.
proof fn lemma_statement_text_start(found: StatementView, tail: Seq<char>)
    requires
        writable_statement(found),
    ensures
        statement_then(found, tail).len() > 0,
        in_class(CharClass::Letter, statement_then(found, tail)[0]),
{
}

/// The text of a program is empty or starts with a letter.
proof fn lemma_program_text_start(listing: Seq<StatementView>, separator: Seq<char>)
    requires
        writable_program(listing),
    ensures
        program_text(listing, separator).len() > 0 ==> in_class(
            CharClass::Letter,
            program_text(listing, separator)[0],
        ),
{
    if listing.len() > 0 {
        lemma_statement_text_start(
            listing[0],
            separator + program_text(listing.skip(1), separator),
        );
    }
}

/// The empty text holds no statement.
proof fn lemma_empty_text_has_no_statement()
    ensures
        spaced_statement(Seq::<char>::empty()) is Err,
{
    let s = Seq::<char>::empty();
    lemma_no_spaces(s);
    lemma_token_missing(s, kw_var());
    lemma_token_missing(s, kw_val());
    lemma_token_missing(s, kw_write());
    assert(run_length(s, CharClass::Letter) == 0);
    assert(declaration(s, kw_var()) is Err);
    assert(declaration(s, kw_val()) is Err);
    assert(identifier(s) is Err);
    assert(print(s) is Err);
}

/// The text of a writable statement, whitespace behind it, and then a text
/// that does not start with whitespace: the statement parser, which takes
/// the whitespace on both sides, reads the statement and leaves that text.
proof fn lemma_spaced_statement_round_trip(
    found: StatementView,
    separator: Seq<char>,
    rest: Seq<char>,
)
    requires
        writable_statement(found),
        all_in_class(separator, CharClass::Space),
        rest.len() > 0 ==> !in_class(CharClass::Space, rest[0]),
    ensures
        spaced_statement(statement_then(found, separator + rest)) == Ok::<
            _,
            ParseFailure,
        >((rest, found)),
{
    let tail = separator + rest;
    let s = statement_then(found, tail);
    lemma_statement_text_start(found, tail);
    lemma_no_spaces(s);
    lemma_statement_round_trip(found, tail);
    lemma_spaces_dropped(separator, rest);
}

/// The statements behind the first of a writable program are writable.
proof fn lemma_writable_rest(listing: Seq<StatementView>)
    requires
        writable_program(listing),
        listing.len() > 0,
    ensures
        writable_program(listing.skip(1)),
{
    let others = listing.skip(1);
    assert forall|i: int| 0 <= i < others.len() implies writable_statement(#[trigger] others[i]) by {
        assert(others[i] == listing[i + 1]);
    }
}

/// The canonical text of a writable program holds its statements and nothing
/// else.
proof fn lemma_statements_of_text(listing: Seq<StatementView>, separator: Seq<char>)
    requires
        writable_program(listing),
        all_in_class(separator, CharClass::Space),
    ensures
        statements(program_text(listing, separator)) == (listing, Seq::<char>::empty()),
    decreases listing.len(),
{
    if listing.len() == 0 {
        lemma_empty_text_has_no_statement();
        assert(listing =~= Seq::empty());
    } else {
        let others = listing.skip(1);
        let rest = program_text(others, separator);
        lemma_writable_rest(listing);
        lemma_statements_of_text(others, separator);
        lemma_program_text_start(others, separator);
        lemma_spaced_statement_round_trip(listing[0], separator, rest);
        assert(seq![listing[0]] + others =~= listing);
    }
}

/// Round trip: the canonical text of a program whose statements can all be
/// written in the grammar, with any whitespace as the separator, parses back to
/// that program and leaves nothing.
pub proof fn lemma_round_trip(listing: Seq<StatementView>, separator: Seq<char>)
    requires
        writable_program(listing),
        all_in_class(separator, CharClass::Space),
    ensures
        statements(program_text(listing, separator)) == (listing, Seq::<char>::empty()),
        program(program_text(listing, separator)) == Ok::<_, ParseFailure>(listing),
{
    lemma_statements_of_text(listing, separator);
}

/// What the parser reads as an identifier can be written as one.
proof fn lemma_identifier_is_writable(s: Seq<char>)
    ensures
        identifier(s) matches Ok((_, name)) ==> writable_name(name),
{
    lemma_run_length(s, CharClass::Letter);
}

/// What the parser reads as an expression can be written in the grammar: the
/// parser builds no operation and no negative number.
pub proof fn lemma_parsed_expression_is_writable(s: Seq<char>)
    ensures
        expression(s) matches Ok((_, expr)) ==> writable_expr(expr),
{
    lemma_identifier_is_writable(s);
    if let Ok(body) = after_token(s, sym_quote()) {
        lemma_run_length(body, CharClass::Unquoted);
    }
}

/// What the parser reads as a statement can be written in the grammar.
pub proof fn lemma_parsed_statement_is_writable(s: Seq<char>)
    ensures
        statement(s) matches Ok((_, found)) ==> writable_statement(found),
{
    lemma_parsed_declaration_is_writable(s, kw_var());
    lemma_parsed_declaration_is_writable(s, kw_val());
    lemma_identifier_is_writable(s);
    if let Ok((s1, _)) = identifier(s) {
        lemma_parsed_value_is_writable(s1, sym_assign());
    }
    if let Ok(s1) = after_token(s, kw_write()) {
        if let Ok(s2) = after_token(after_spaces(s1), sym_open()) {
            lemma_parsed_expression_is_writable(s2);
        }
    }
}

proof fn lemma_parsed_value_is_writable(s: Seq<char>, symbol: Seq<char>)
    ensures
        bound_value(s, symbol) matches Ok((_, value)) ==> writable_expr(value),
{
    if let Ok(s1) = after_token(after_spaces(s), symbol) {
        lemma_parsed_expression_is_writable(after_spaces(s1));
    }
}

proof fn lemma_parsed_declaration_is_writable(s: Seq<char>, keyword: Seq<char>)
    ensures
        declaration(s, keyword) matches Ok((_, (name, value))) ==> writable_name(name)
            && writable_expr(value),
{
    if let Ok(s1) = after_token(s, keyword) {
        if let Ok(s2) = after_whitespace(s1) {
            lemma_identifier_is_writable(s2);
            if let Ok((s3, _)) = identifier(s2) {
                lemma_parsed_value_is_writable(s3, sym_equals());
            }
        }
    }
}

/// The statements that the parser reads from a text can all be written in the
/// grammar.
pub proof fn lemma_parsed_program_is_writable(s: Seq<char>)
    ensures
        writable_program(statements(s).0),
    decreases s.len(),
{
    if let Ok((rest, first)) = spaced_statement(s) {
        lemma_spaced_statement_keeps(s);
        lemma_parsed_statement_is_writable(after_spaces(s));
        lemma_parsed_program_is_writable(rest);
        let listing = statements(s).0;
        assert forall|i: int| 0 <= i < listing.len() implies writable_statement(
            #[trigger] listing[i],
        ) by {
            if i > 0 {
                assert(listing[i] == statements(rest).0[i - 1]);
            }
        }
    }
}

/// Writing out what was parsed and parsing that again gives the same
/// statements.
pub proof fn lemma_reparse(s: Seq<char>, separator: Seq<char>)
    requires
        all_in_class(separator, CharClass::Space),
    ensures
        statements(program_text(statements(s).0, separator)).0 == statements(s).0,
{
    lemma_parsed_program_is_writable(s);
    lemma_round_trip(statements(s).0, separator);
}

} // verus!
