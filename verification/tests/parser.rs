use tinyscript::ast::{Expr, Statement};
use tinyscript::grammar::Expected;
use tinyscript::parser::{
    parse_assign, parse_expr, parse_number, parse_print, parse_program, parse_statement,
    parse_statements, parse_string, parse_val, parse_var, parse_variable, ParseError,
};

fn number(n: i32) -> Expr {
    Expr::Number(n)
}

fn variable(name: &str) -> Expr {
    Expr::Variable(name.to_string())
}

fn text(content: &str) -> Expr {
    Expr::StringLiteral(content.to_string())
}

fn var_decl(name: &str, value: Expr) -> Statement {
    Statement::VarDecl(name.to_string(), value)
}

fn val_decl(name: &str, value: Expr) -> Statement {
    Statement::ValDecl(name.to_string(), value)
}

fn assign(name: &str, value: Expr) -> Statement {
    Statement::Assign(name.to_string(), value)
}

fn failure(at: &str, expected: Expected) -> ParseError<'_> {
    ParseError { at, expected }
}

#[test]
fn number_reads_leading_digits() {
    assert_eq!(parse_number("42"), Ok(("", number(42))));
    assert_eq!(parse_number("42;rest"), Ok((";rest", number(42))));
    assert_eq!(parse_number("12b"), Ok(("b", number(12))));
    assert_eq!(parse_number("0"), Ok(("", number(0))));
}

#[test]
fn number_ignores_leading_zeros() {
    assert_eq!(parse_number("007"), Ok(("", number(7))));
    assert_eq!(parse_number("00000000000000000000012 "), Ok((" ", number(12))));
}

#[test]
fn number_without_digit_fails_at_the_input() {
    assert_eq!(parse_number("abc"), Err(failure("abc", Expected::Digit)));
    assert_eq!(parse_number(""), Err(failure("", Expected::Digit)));
    assert_eq!(parse_number("-5"), Err(failure("-5", Expected::Digit)));
    assert_eq!(parse_number(" 5"), Err(failure(" 5", Expected::Digit)));
}

#[test]
fn number_up_to_i32_max_is_read() {
    assert_eq!(parse_number("2147483647"), Ok(("", number(i32::MAX))));
    assert_eq!(parse_number("2147483646"), Ok(("", number(2147483646))));
}

#[test]
fn number_above_i32_max_fails() {
    assert_eq!(parse_number("2147483648"), Err(failure("2147483648", Expected::Number)));
    assert_eq!(parse_number("99999999999;"), Err(failure("99999999999;", Expected::Number)));
    assert_eq!(parse_number("4294967296"), Err(failure("4294967296", Expected::Number)));
    assert_eq!(
        parse_number("18446744073709551616x"),
        Err(failure("18446744073709551616x", Expected::Number))
    );
}

#[test]
fn number_does_not_take_non_ascii_digits() {
    // U+0663 ARABIC-INDIC DIGIT THREE is a digit to Unicode, but not to the grammar.
    assert_eq!(parse_number("\u{663}"), Err(failure("\u{663}", Expected::Digit)));
    assert_eq!(parse_number("1\u{663}"), Ok(("\u{663}", number(1))));
}

#[test]
fn string_reads_up_to_the_next_quote() {
    assert_eq!(parse_string("\"Hello, World!\""), Ok(("", text("Hello, World!"))));
    assert_eq!(parse_string("\"a\" \"b\""), Ok((" \"b\"", text("a"))));
    assert_eq!(parse_string("\"\""), Ok(("", text(""))));
    assert_eq!(parse_string("\"\"\""), Ok(("\"", text(""))));
}

#[test]
fn string_keeps_its_characters_as_they_are() {
    assert_eq!(parse_string("\"a\\nb\");"), Ok((");", text("a\\nb"))));
    assert_eq!(parse_string("\" spaced  out \""), Ok(("", text(" spaced  out "))));
    assert_eq!(parse_string("\"h\u{e9}llo \u{1f600}\";"), Ok((";", text("h\u{e9}llo \u{1f600}"))));
    assert_eq!(parse_string("\"line\nbreak\""), Ok(("", text("line\nbreak"))));
}

#[test]
fn string_without_opening_quote_fails_at_the_input() {
    assert_eq!(parse_string("abc\""), Err(failure("abc\"", Expected::Token)));
    assert_eq!(parse_string(""), Err(failure("", Expected::Token)));
}

#[test]
fn string_without_closing_quote_fails_behind_the_opening_quote() {
    assert_eq!(parse_string("\"abc"), Err(failure("abc", Expected::ClosingQuote)));
    assert_eq!(parse_string("\""), Err(failure("", Expected::ClosingQuote)));
}

#[test]
fn variable_reads_leading_letters() {
    assert_eq!(parse_variable("x"), Ok(("", variable("x"))));
    assert_eq!(parse_variable("aB1c"), Ok(("1c", variable("aB"))));
    assert_eq!(parse_variable("foo_bar"), Ok(("_bar", variable("foo"))));
    assert_eq!(parse_variable("azAZ;"), Ok((";", variable("azAZ"))));
}

#[test]
fn variable_without_letter_fails_at_the_input() {
    assert_eq!(parse_variable("1c"), Err(failure("1c", Expected::Letter)));
    assert_eq!(parse_variable(""), Err(failure("", Expected::Letter)));
    assert_eq!(parse_variable("_x"), Err(failure("_x", Expected::Letter)));
    assert_eq!(parse_variable("\u{e9}"), Err(failure("\u{e9}", Expected::Letter)));
    // The characters next to the letters in ASCII are no letters.
    assert_eq!(parse_variable("@"), Err(failure("@", Expected::Letter)));
    assert_eq!(parse_variable("["), Err(failure("[", Expected::Letter)));
    assert_eq!(parse_variable("`"), Err(failure("`", Expected::Letter)));
    assert_eq!(parse_variable("{"), Err(failure("{", Expected::Letter)));
}

#[test]
fn expr_tries_number_then_string_then_variable() {
    assert_eq!(parse_expr("12ab"), Ok(("ab", number(12))));
    assert_eq!(parse_expr("\"12\"ab"), Ok(("ab", text("12"))));
    assert_eq!(parse_expr("ab12"), Ok(("12", variable("ab"))));
}

#[test]
fn expr_failure_is_that_of_the_variable() {
    assert_eq!(parse_expr(";"), Err(failure(";", Expected::Letter)));
    assert_eq!(parse_expr(""), Err(failure("", Expected::Letter)));
    assert_eq!(parse_expr("\"open"), Err(failure("\"open", Expected::Letter)));
    assert_eq!(parse_expr("2147483648"), Err(failure("2147483648", Expected::Letter)));
}

#[test]
fn expr_builds_no_operation() {
    assert_eq!(parse_expr("1+2"), Ok(("+2", number(1))));
    assert_eq!(parse_expr("z / 0"), Ok((" / 0", variable("z"))));
}

#[test]
fn var_declaration_is_read() {
    assert_eq!(parse_var("var x = 5;"), Ok(("", var_decl("x", number(5)))));
    assert_eq!(parse_var("var x=5;"), Ok(("", var_decl("x", number(5)))));
    assert_eq!(parse_var("var \t\r\n x \n=\n y;rest"), Ok(("rest", var_decl("x", variable("y")))));
    assert_eq!(parse_var("var s = \"a b\"; "), Ok((" ", var_decl("s", text("a b")))));
}

#[test]
fn var_declaration_needs_whitespace_behind_the_keyword() {
    assert_eq!(parse_var("varx = 5;"), Err(failure("x = 5;", Expected::Whitespace)));
    assert_eq!(parse_var("var"), Err(failure("", Expected::Whitespace)));
}

#[test]
fn var_declaration_reports_each_missing_part() {
    assert_eq!(parse_var("val x = 5;"), Err(failure("val x = 5;", Expected::Token)));
    assert_eq!(parse_var(" var x = 5;"), Err(failure(" var x = 5;", Expected::Token)));
    assert_eq!(parse_var("var 1 = 5;"), Err(failure("1 = 5;", Expected::Letter)));
    assert_eq!(parse_var("var x 5;"), Err(failure("5;", Expected::Token)));
    assert_eq!(parse_var("var x := 5;"), Err(failure(":= 5;", Expected::Token)));
    assert_eq!(parse_var("var x = ;"), Err(failure(";", Expected::Letter)));
    assert_eq!(parse_var("var x = 5"), Err(failure("", Expected::Token)));
    assert_eq!(parse_var("var x = 5 ;"), Err(failure(" ;", Expected::Token)));
    assert_eq!(parse_var("var x = 1 + 2;"), Err(failure(" + 2;", Expected::Token)));
}

#[test]
fn val_declaration_is_read() {
    assert_eq!(parse_val("val pi = 3;"), Ok(("", val_decl("pi", number(3)))));
    assert_eq!(parse_val("val  y=x;z"), Ok(("z", val_decl("y", variable("x")))));
}

#[test]
fn val_declaration_reports_each_missing_part() {
    assert_eq!(parse_val("var x = 5;"), Err(failure("var x = 5;", Expected::Token)));
    assert_eq!(parse_val("valx = 5;"), Err(failure("x = 5;", Expected::Whitespace)));
    assert_eq!(parse_val("val = 5;"), Err(failure("= 5;", Expected::Letter)));
    assert_eq!(parse_val("val x = 5"), Err(failure("", Expected::Token)));
}

#[test]
fn assignment_is_read() {
    assert_eq!(parse_assign("x := 10;"), Ok(("", assign("x", number(10)))));
    assert_eq!(parse_assign("x:=y;"), Ok(("", assign("x", variable("y")))));
    assert_eq!(parse_assign("x\n:=\n\"t\";\n"), Ok(("\n", assign("x", text("t")))));
    assert_eq!(parse_assign("var := 1;"), Ok(("", assign("var", number(1)))));
}

#[test]
fn assignment_reports_each_missing_part() {
    assert_eq!(parse_assign(":= 1;"), Err(failure(":= 1;", Expected::Letter)));
    assert_eq!(parse_assign("x = 1;"), Err(failure("= 1;", Expected::Token)));
    assert_eq!(parse_assign("x : = 1;"), Err(failure(": = 1;", Expected::Token)));
    assert_eq!(parse_assign("x := ;"), Err(failure(";", Expected::Letter)));
    assert_eq!(parse_assign("x := 1"), Err(failure("", Expected::Token)));
}

#[test]
fn print_is_read() {
    assert_eq!(parse_print("write(x);"), Ok(("", Statement::Print(variable("x")))));
    assert_eq!(parse_print("write  (12);rest"), Ok(("rest", Statement::Print(number(12)))));
    assert_eq!(parse_print("write(\"hi (there)\");"), Ok(("", Statement::Print(text("hi (there)")))));
}

#[test]
fn print_takes_no_whitespace_inside_the_parentheses() {
    assert_eq!(parse_print("write( x);"), Err(failure(" x);", Expected::Letter)));
    assert_eq!(parse_print("write(x );"), Err(failure(" );", Expected::Token)));
    assert_eq!(parse_print("write(x) ;"), Err(failure(" ;", Expected::Token)));
}

#[test]
fn print_reports_each_missing_part() {
    assert_eq!(parse_print("print(x);"), Err(failure("print(x);", Expected::Token)));
    assert_eq!(parse_print("write x;"), Err(failure("x;", Expected::Token)));
    assert_eq!(parse_print("write();"), Err(failure(");", Expected::Letter)));
    assert_eq!(parse_print("write(x;"), Err(failure(";", Expected::Token)));
    assert_eq!(parse_print("write(x)"), Err(failure("", Expected::Token)));
}

#[test]
fn statement_takes_the_first_alternative_that_matches() {
    assert_eq!(parse_statement("var x = 5;"), Ok(("", var_decl("x", number(5)))));
    assert_eq!(parse_statement("val x = 5;"), Ok(("", val_decl("x", number(5)))));
    assert_eq!(parse_statement("x := 5;"), Ok(("", assign("x", number(5)))));
    assert_eq!(parse_statement("write(5);"), Ok(("", Statement::Print(number(5)))));
}

#[test]
fn statement_keywords_can_be_assigned_to() {
    assert_eq!(parse_statement("var := 5;"), Ok(("", assign("var", number(5)))));
    assert_eq!(parse_statement("val := 5;"), Ok(("", assign("val", number(5)))));
    assert_eq!(parse_statement("write := 5;"), Ok(("", assign("write", number(5)))));
    assert_eq!(parse_statement("variable := 5;"), Ok(("", assign("variable", number(5)))));
    assert_eq!(parse_statement("var var = var;"), Ok(("", var_decl("var", variable("var")))));
}

#[test]
fn statement_failure_is_that_of_the_print() {
    assert_eq!(parse_statement("foo"), Err(failure("foo", Expected::Token)));
    assert_eq!(parse_statement(""), Err(failure("", Expected::Token)));
    assert_eq!(parse_statement("var x = 5"), Err(failure("var x = 5", Expected::Token)));
    assert_eq!(parse_statement("write(;"), Err(failure(";", Expected::Letter)));
    assert_eq!(parse_statement(" write(x);"), Err(failure(" write(x);", Expected::Token)));
}

#[test]
fn statements_of_a_program_are_read_in_order() {
    assert_eq!(
        parse_statements("var x = 5; x := 10; write(x);"),
        Ok(("", vec![var_decl("x", number(5)), assign("x", number(10)), Statement::Print(variable("x"))]))
    );
}

#[test]
fn statements_may_have_whitespace_round_them() {
    assert_eq!(
        parse_statements("\n\t var x = 5;\r\n\r\n  write(x);  \n"),
        Ok(("", vec![var_decl("x", number(5)), Statement::Print(variable("x"))]))
    );
    assert_eq!(
        parse_statements("var x = 5;write(x);"),
        Ok(("", vec![var_decl("x", number(5)), Statement::Print(variable("x"))]))
    );
}

#[test]
fn statements_of_an_empty_text_are_none() {
    assert_eq!(parse_statements(""), Ok(("", vec![])));
}

#[test]
fn statements_hand_back_what_is_no_statement() {
    assert_eq!(parse_statements("var x = 1; ???"), Ok(("???", vec![var_decl("x", number(1))])));
    assert_eq!(parse_statements("foo"), Ok(("foo", vec![])));
    assert_eq!(
        parse_statements("write(1); write(2) write(3);"),
        Ok(("write(2) write(3);", vec![Statement::Print(number(1))]))
    );
}

#[test]
fn statements_hand_back_the_whitespace_in_front_of_what_is_no_statement() {
    assert_eq!(parse_statements("   "), Ok(("   ", vec![])));
    assert_eq!(parse_statements(" \n foo"), Ok((" \n foo", vec![])));
    // Whitespace behind a statement belongs to that statement.
    assert_eq!(parse_statements("write(1); \n foo"), Ok(("foo", vec![Statement::Print(number(1))])));
}

#[test]
fn statements_are_the_same_on_every_call() {
    let source = "val pi = 3; var r = 2; r := pi; write(r); write(\"done\"); oops";
    let first = parse_statements(source);
    let second = parse_statements(source);
    assert_eq!(first, second);
    let copy = source.to_string();
    assert_eq!(parse_statements(&copy), first);
    assert_eq!(parse_program(source), parse_program(&copy));
}

#[test]
fn canonical_text_parses_back_to_the_program() {
    let program = || {
        vec![
            var_decl("x", number(5)),
            val_decl("greeting", text("hello, world")),
            assign("x", variable("y")),
            Statement::Print(variable("x")),
            Statement::Print(text("")),
            var_decl("big", number(i32::MAX)),
            assign("var", number(0)),
        ]
    };
    let lines = "var x = 5;\nval greeting = \"hello, world\";\nx := y;\nwrite(x);\nwrite(\"\");\n\
                 var big = 2147483647;\nvar := 0;\n";
    assert_eq!(parse_statements(lines), Ok(("", program())));
    assert_eq!(parse_program(lines), Ok(program()));
    let spaced = lines.replace('\n', " ");
    assert_eq!(parse_statements(&spaced), Ok(("", program())));
    let packed = lines.replace('\n', "");
    assert_eq!(parse_statements(&packed), Ok(("", program())));
}

#[test]
fn program_is_read_whole() {
    assert_eq!(
        parse_program("var x = 5; x := 10; write(x);"),
        Ok(vec![var_decl("x", number(5)), assign("x", number(10)), Statement::Print(variable("x"))])
    );
    assert_eq!(parse_program(""), Ok(vec![]));
    assert_eq!(parse_program("write(1);\n"), Ok(vec![Statement::Print(number(1))]));
}

#[test]
fn program_with_text_left_over_fails_where_the_statement_parser_fails() {
    assert_eq!(parse_program("var x = 1; ???"), Err(failure("???", Expected::Token)));
    assert_eq!(parse_program("var x = 1;\n write(;"), Err(failure(";", Expected::Letter)));
    assert_eq!(parse_program("write(1) ;"), Err(failure(" ;", Expected::Token)));
    assert_eq!(parse_program("var x = 5"), Err(failure("var x = 5", Expected::Token)));
}

#[test]
fn program_of_whitespace_alone_fails() {
    assert_eq!(parse_program("  \n"), Err(failure("", Expected::Token)));
}

#[test]
fn whitespace_is_space_tab_carriage_return_and_line_feed_only() {
    assert_eq!(parse_var("var\tx\r=\n5;"), Ok(("", var_decl("x", number(5)))));
    // No-break space, em space, vertical tab and form feed are no whitespace here.
    assert_eq!(
        parse_var("var\u{a0}x = 5;"),
        Err(failure("\u{a0}x = 5;", Expected::Whitespace))
    );
    assert_eq!(
        parse_var("var \u{2003}x = 5;"),
        Err(failure("\u{2003}x = 5;", Expected::Letter))
    );
    assert_eq!(parse_print("write\u{b}(x);"), Err(failure("\u{b}(x);", Expected::Token)));
    assert_eq!(parse_statements("\u{c}write(x);"), Ok(("\u{c}write(x);", vec![])));
}

#[test]
fn characters_of_several_bytes_are_kept_whole() {
    assert_eq!(parse_var("var \u{e9} = 5;"), Err(failure("\u{e9} = 5;", Expected::Letter)));
    assert_eq!(parse_var("var x\u{e9} = 5;"), Err(failure("\u{e9} = 5;", Expected::Token)));
    assert_eq!(parse_print("writ\u{e9}(x);"), Err(failure("writ\u{e9}(x);", Expected::Token)));
    assert_eq!(
        parse_statements("write(\"\u{4e16}\u{754c}\");\u{3000}write(1);"),
        Ok((
            "\u{3000}write(1);",
            vec![Statement::Print(text("\u{4e16}\u{754c}"))]
        ))
    );
    assert_eq!(
        parse_program("write(\"\u{1f600}\"); \u{1f600}"),
        Err(failure("\u{1f600}", Expected::Token))
    );
    assert_eq!(parse_string("\"\u{e9}"), Err(failure("\u{e9}", Expected::ClosingQuote)));
}

#[test]
fn failure_place_tells_the_offset_in_the_source() {
    let source = "var x = 1;\nvar y = ;\n";
    let error = parse_program(source).unwrap_err();
    assert_eq!(error.expected, Expected::Token);
    assert_eq!(error.at, "var y = ;\n");
    assert_eq!(source.len() - error.at.len(), 11);
    assert!(source.ends_with(error.at));
}
