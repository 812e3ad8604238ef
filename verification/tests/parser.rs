use sexpr::ast::AST;
use sexpr::parser::{parse, parse_cons, parse_num, parse_sexpr, parse_word, SyntaxError};
use sexpr::scanner::Cursor;

fn num(n: i64) -> AST {
    AST::Num(n)
}

fn word(w: &str) -> AST {
    AST::Word(w.to_string())
}

fn cons(head: AST, tail: AST) -> AST {
    AST::Cons { head: Box::new(head), tail: Box::new(tail) }
}

fn list(items: Vec<AST>) -> AST {
    let mut out = AST::Nil;
    for item in items.into_iter().rev() {
        out = cons(item, out);
    }
    out
}

#[test]
fn parse_num_reads_the_whole_run_of_digits() {
    let mut cursor = Cursor::new("123abc");
    assert_eq!(parse_num(&mut cursor), Ok(num(123)));
    assert_eq!(cursor.position(), 3);
    assert_eq!(cursor.peek(), Some('a'));
}

#[test]
fn parse_num_single_digit_at_the_end() {
    let mut cursor = Cursor::new("7");
    assert_eq!(parse_num(&mut cursor), Ok(num(7)));
    assert_eq!(cursor.position(), 1);
}

#[test]
fn parse_num_zero() {
    let mut cursor = Cursor::new("0)");
    assert_eq!(parse_num(&mut cursor), Ok(num(0)));
    assert_eq!(cursor.position(), 1);
}

#[test]
fn parse_num_ignores_leading_zeros() {
    let mut cursor = Cursor::new("007 ");
    assert_eq!(parse_num(&mut cursor), Ok(num(7)));
    assert_eq!(cursor.position(), 3);
}

#[test]
fn parse_num_many_leading_zeros_still_fit() {
    let mut cursor = Cursor::new("0000000000000000000000000000042");
    assert_eq!(parse_num(&mut cursor), Ok(num(42)));
    assert_eq!(cursor.position(), 31);
}

#[test]
fn parse_num_largest_value() {
    let mut cursor = Cursor::new("9223372036854775807");
    assert_eq!(parse_num(&mut cursor), Ok(num(i64::MAX)));
    assert_eq!(cursor.position(), 19);
}

#[test]
fn parse_num_one_above_the_largest_value_fails() {
    let mut cursor = Cursor::new("9223372036854775808");
    assert_eq!(parse_num(&mut cursor), Err(SyntaxError::NumberTooLarge { at: 0 }));
}

#[test]
fn parse_num_far_too_large_fails() {
    let mut cursor = Cursor::new("x 123456789012345678901234567890");
    cursor.advance();
    cursor.advance();
    assert_eq!(parse_num(&mut cursor), Err(SyntaxError::NumberTooLarge { at: 2 }));
}

#[test]
fn parse_num_starts_at_the_cursor() {
    let mut cursor = Cursor::new("12 34");
    cursor.advance();
    assert_eq!(parse_num(&mut cursor), Ok(num(2)));
    assert_eq!(cursor.position(), 2);
}

#[test]
fn parse_word_stops_at_whitespace() {
    let mut cursor = Cursor::new("foo bar");
    assert_eq!(parse_word(&mut cursor), word("foo"));
    assert_eq!(cursor.position(), 3);
}

#[test]
fn parse_word_stops_at_newline_and_tab() {
    let mut cursor = Cursor::new("ab\ncd");
    assert_eq!(parse_word(&mut cursor), word("ab"));
    let mut cursor = Cursor::new("ab\tcd");
    assert_eq!(parse_word(&mut cursor), word("ab"));
}

#[test]
fn parse_word_stops_at_parentheses() {
    let mut cursor = Cursor::new("foo(bar");
    assert_eq!(parse_word(&mut cursor), word("foo"));
    assert_eq!(cursor.position(), 3);
    let mut cursor = Cursor::new("foo)bar");
    assert_eq!(parse_word(&mut cursor), word("foo"));
    assert_eq!(cursor.position(), 3);
}

#[test]
fn parse_word_runs_to_the_end_of_the_text() {
    let mut cursor = Cursor::new("frobnicate");
    assert_eq!(parse_word(&mut cursor), word("frobnicate"));
    assert_eq!(cursor.position(), 10);
    assert_eq!(cursor.peek(), None);
}

#[test]
fn parse_word_is_empty_at_a_delimiter() {
    let mut cursor = Cursor::new(")");
    assert_eq!(parse_word(&mut cursor), word(""));
    assert_eq!(cursor.position(), 0);
}

#[test]
fn parse_word_is_empty_at_the_end_of_the_text() {
    let mut cursor = Cursor::new("");
    assert_eq!(parse_word(&mut cursor), word(""));
    assert_eq!(cursor.position(), 0);
}

#[test]
fn parse_word_keeps_every_other_character() {
    let mut cursor = Cursor::new("a-b_c.d+1λ\r!");
    assert_eq!(parse_word(&mut cursor), word("a-b_c.d+1λ\r!"));
    assert_eq!(cursor.position(), 12);
}

#[test]
fn parse_cons_of_a_closing_parenthesis_is_the_empty_list() {
    let mut cursor = Cursor::new(")");
    assert_eq!(parse_cons(&mut cursor), Ok(AST::Nil));
    assert_eq!(cursor.position(), 1);
}

#[test]
fn parse_cons_skips_whitespace_before_the_closing_parenthesis() {
    let mut cursor = Cursor::new("  \n )x");
    assert_eq!(parse_cons(&mut cursor), Ok(AST::Nil));
    assert_eq!(cursor.position(), 5);
}

#[test]
fn parse_cons_builds_a_chain_that_ends_in_nil() {
    let mut cursor = Cursor::new("1 two 3) rest");
    assert_eq!(
        parse_cons(&mut cursor),
        Ok(cons(num(1), cons(word("two"), cons(num(3), AST::Nil))))
    );
    assert_eq!(cursor.position(), 8);
}

#[test]
fn parse_cons_fails_where_the_text_ends_first() {
    let mut cursor = Cursor::new("1 2");
    assert_eq!(parse_cons(&mut cursor), Err(SyntaxError::UnterminatedList { at: 3 }));
}

#[test]
fn parse_cons_fails_on_empty_text() {
    let mut cursor = Cursor::new("");
    assert_eq!(parse_cons(&mut cursor), Err(SyntaxError::UnterminatedList { at: 0 }));
}

#[test]
fn parse_cons_passes_on_the_failure_of_an_element() {
    let mut cursor = Cursor::new("1 99999999999999999999 3)");
    assert_eq!(parse_cons(&mut cursor), Err(SyntaxError::NumberTooLarge { at: 2 }));
}

#[test]
fn parse_sexpr_number() {
    let mut cursor = Cursor::new("  42 ");
    assert_eq!(parse_sexpr(&mut cursor), Ok(num(42)));
    assert_eq!(cursor.position(), 4);
}

#[test]
fn parse_sexpr_symbol() {
    let mut cursor = Cursor::new("\tplus ");
    assert_eq!(parse_sexpr(&mut cursor), Ok(word("plus")));
    assert_eq!(cursor.position(), 5);
}

#[test]
fn parse_sexpr_list() {
    let mut cursor = Cursor::new(" (a b) c");
    assert_eq!(parse_sexpr(&mut cursor), Ok(list(vec![word("a"), word("b")])));
    assert_eq!(cursor.position(), 6);
}

#[test]
fn parse_sexpr_empty_list() {
    let mut cursor = Cursor::new("()");
    assert_eq!(parse_sexpr(&mut cursor), Ok(AST::Nil));
    assert_eq!(cursor.position(), 2);
}

#[test]
fn parse_sexpr_two_in_a_row() {
    let mut cursor = Cursor::new("(a) 7");
    assert_eq!(parse_sexpr(&mut cursor), Ok(list(vec![word("a")])));
    assert_eq!(parse_sexpr(&mut cursor), Ok(num(7)));
    assert_eq!(cursor.position(), 5);
}

#[test]
fn parse_sexpr_unexpected_closing_parenthesis() {
    let mut cursor = Cursor::new("  )");
    assert_eq!(parse_sexpr(&mut cursor), Err(SyntaxError::UnexpectedClose { at: 2 }));
}

#[test]
fn parse_call_with_three_arguments() {
    assert_eq!(parse("(+ 1 2 3)"), Ok(list(vec![word("+"), num(1), num(2), num(3)])));
}

#[test]
fn parse_nested_lists() {
    assert_eq!(
        parse("(+ (* 2 3) (* 4 5))"),
        Ok(list(vec![
            word("+"),
            list(vec![word("*"), num(2), num(3)]),
            list(vec![word("*"), num(4), num(5)]),
        ]))
    );
}

#[test]
fn parse_deeply_nested_empty_lists() {
    assert_eq!(parse("((()))"), Ok(list(vec![list(vec![AST::Nil])])));
}

#[test]
fn parse_whitespace_is_insignificant_between_elements() {
    assert_eq!(parse(" (\n+\t1   2\n)\n"), parse("(+ 1 2)"));
    assert_eq!(parse("(+ 1 2)"), Ok(list(vec![word("+"), num(1), num(2)])));
}

#[test]
fn parse_elements_need_no_whitespace_around_parentheses() {
    assert_eq!(parse("(a(b)c)"), Ok(list(vec![word("a"), list(vec![word("b")]), word("c")])));
}

#[test]
fn parse_digits_followed_by_letters_are_a_number_then_a_symbol() {
    assert_eq!(parse("(12abc)"), Ok(list(vec![num(12), word("abc")])));
}

#[test]
fn parse_letters_followed_by_digits_are_one_symbol() {
    assert_eq!(parse("abc12"), Ok(word("abc12")));
}

#[test]
fn parse_minus_sign_starts_a_symbol() {
    assert_eq!(parse("-5"), Ok(word("-5")));
}

#[test]
fn parse_ignores_what_follows_the_first_expression() {
    assert_eq!(parse("1 2 3"), Ok(num(1)));
    assert_eq!(parse("(a) )))"), Ok(list(vec![word("a")])));
    assert_eq!(parse("foo 99999999999999999999"), Ok(word("foo")));
}

#[test]
fn parse_empty_text_is_the_empty_symbol() {
    assert_eq!(parse(""), Ok(word("")));
}

#[test]
fn parse_blank_text_is_the_empty_symbol() {
    assert_eq!(parse(" \n\t "), Ok(word("")));
}

#[test]
fn parse_unterminated_list() {
    assert_eq!(parse("(+ 1 2"), Err(SyntaxError::UnterminatedList { at: 6 }));
}

#[test]
fn parse_unterminated_inner_list() {
    assert_eq!(parse("(a (b c)"), Err(SyntaxError::UnterminatedList { at: 8 }));
}

#[test]
fn parse_unterminated_list_after_trailing_whitespace() {
    assert_eq!(parse("(a  "), Err(SyntaxError::UnterminatedList { at: 4 }));
}

#[test]
fn parse_lone_opening_parenthesis() {
    assert_eq!(parse("("), Err(SyntaxError::UnterminatedList { at: 1 }));
}

#[test]
fn parse_unexpected_closing_parenthesis() {
    assert_eq!(parse(")"), Err(SyntaxError::UnexpectedClose { at: 0 }));
}

#[test]
fn parse_number_too_large_inside_a_list() {
    assert_eq!(parse("(+ 1 9223372036854775808)"), Err(SyntaxError::NumberTooLarge { at: 5 }));
}

#[test]
fn parse_the_first_failure_wins() {
    assert_eq!(parse("(99999999999999999999 (a"), Err(SyntaxError::NumberTooLarge { at: 1 }));
}

#[test]
fn parse_positions_count_characters() {
    assert_eq!(parse("(λ 99999999999999999999)"), Err(SyntaxError::NumberTooLarge { at: 3 }));
}

#[test]
fn parse_is_deterministic() {
    let text = "(first (list 1 (tail (list a b)) 3))";
    assert_eq!(parse(text), parse(text));
    assert_eq!(parse("(+ 1"), parse("(+ 1"));
}

#[test]
fn parse_reads_list_notation_with_a_space_after_each_element() {
    assert_eq!(
        parse("(+ 1 (a ) () )"),
        Ok(list(vec![word("+"), num(1), list(vec![word("a")]), AST::Nil]))
    );
}

#[test]
fn parse_never_reads_a_negative_number() {
    assert_eq!(parse("(-1 -0)"), Ok(list(vec![word("-1"), word("-0")])));
}

#[test]
fn parse_reads_the_empty_symbol_at_the_end_of_the_text_only() {
    assert_eq!(parse("  "), Ok(word("")));
    assert_eq!(parse("( )"), Ok(AST::Nil));
    assert_eq!(parse("(a )"), Ok(list(vec![word("a")])));
}
