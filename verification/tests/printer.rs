use sexpr::ast::AST;
use sexpr::printer::format_ast;

fn cell(head: AST, tail: AST) -> AST {
    AST::Cons { head: Box::new(head), tail: Box::new(tail) }
}

#[test]
fn format_ast_empty_list() {
    assert_eq!(format_ast(AST::Nil), "[]");
}

#[test]
fn format_ast_numbers() {
    assert_eq!(format_ast(AST::Num(0)), "0");
    assert_eq!(format_ast(AST::Num(6)), "6");
    assert_eq!(format_ast(AST::Num(10)), "10");
    assert_eq!(format_ast(AST::Num(1234567890)), "1234567890");
    assert_eq!(format_ast(AST::Num(100200)), "100200");
}

#[test]
fn format_ast_negative_numbers_carry_a_sign() {
    assert_eq!(format_ast(AST::Num(-1)), "-1");
    assert_eq!(format_ast(AST::Num(-42)), "-42");
    assert_eq!(format_ast(AST::Num(-1000)), "-1000");
}

#[test]
fn format_ast_ends_of_the_range() {
    assert_eq!(format_ast(AST::Num(i64::MAX)), "9223372036854775807");
    assert_eq!(format_ast(AST::Num(i64::MIN)), "-9223372036854775808");
}

#[test]
fn format_ast_agrees_with_the_standard_library_on_numbers() {
    for value in [0i64, 1, 9, 10, 11, 99, 100, 101, -9, -10, -99, -100, 4096, -65535, i64::MAX - 1, i64::MIN + 1] {
        assert_eq!(format_ast(AST::Num(value)), format!("{}", value));
    }
}

#[test]
fn format_ast_symbol_is_verbatim() {
    assert_eq!(format_ast(AST::Word("foo".to_string())), "foo");
    assert_eq!(format_ast(AST::Word("+".to_string())), "+");
    assert_eq!(format_ast(AST::Word("".to_string())), "");
    assert_eq!(format_ast(AST::Word("a \"b\" (c) λ".to_string())), "a \"b\" (c) λ");
}

#[test]
fn format_ast_cons_cell() {
    assert_eq!(format_ast(cell(AST::Num(1), AST::Nil)), "( 1 : [] )");
    assert_eq!(format_ast(cell(AST::Num(1), AST::Num(2))), "( 1 : 2 )");
}

#[test]
fn format_ast_list() {
    let list = cell(AST::Num(1), cell(AST::Num(2), cell(AST::Num(3), AST::Nil)));
    assert_eq!(format_ast(list), "( 1 : ( 2 : ( 3 : [] ) ) )");
}

#[test]
fn format_ast_nested_list() {
    let inner = cell(AST::Word("a".to_string()), AST::Nil);
    let outer = cell(inner, cell(AST::Num(-7), AST::Nil));
    assert_eq!(format_ast(outer), "( ( a : [] ) : ( -7 : [] ) )");
}
