//! The formatter: renders an expression tree as text.
//!
//! A cons cell is written as a record of its two parts, `( head : tail )`, and
//! the empty list as `[]`, so the list of 1 and 2 reads `( 1 : ( 2 : [] ) )`.

use vstd::prelude::*;
use vstd::string::StringExecFns;
use crate::ast::{AST, Tree};
use crate::parser::{decimal_value, digit_value};
use crate::scanner::is_digit;

verus! {

/// The character that stands for the digit `d`.
pub open spec fn digit_char(d: int) -> char {
    ('0' as int + d) as char
}

/// A natural number in decimal, without leading zeros.
pub open spec fn nat_text(n: nat) -> Seq<char>
    decreases n,
{
    if n < 10 {
        seq![digit_char(n as int)]
    } else {
        nat_text(n / 10).push(digit_char(n as int % 10))
    }
}

/// An integer in decimal, with a minus sign in front where it is negative.
pub open spec fn int_text(n: int) -> Seq<char> {
    if n < 0 {
        seq!['-'] + nat_text((-n) as nat)
    } else {
        nat_text(n as nat)
    }
}

/// The text of an expression.
pub open spec fn render(t: Tree) -> Seq<char>
    decreases t,
{
    match t {
        Tree::Nil => "[]"@,
        Tree::Num(n) => int_text(n),
        Tree::Word(w) => w,
        Tree::Cons { head, tail } => "( "@ + render(*head) + " : "@ + render(*tail) + " )"@,
    }
}

/// Appends the decimal digits of `n` to `text`.
fn push_decimal(text: &mut String, n: u64)
    ensures
        final(text)@ == old(text)@ + nat_text(n as nat),
    decreases n,
{
    if n >= 10 {
        push_decimal(text, n / 10);
    }
    let digit = (n % 10) as u8;
    text.push(('0' as u8 + digit) as char);
    assert(text@ =~= old(text)@ + nat_text(n as nat));
}

/// Appends the text of `tree` to `out`.
fn write_ast(tree: AST, out: &mut String)
    ensures
        final(out)@ == old(out)@ + render(tree@),
    decreases tree,
{
    match tree {
        AST::Nil => {
            out.append("[]");
        },
        AST::Num(n) => {
            if n < 0 {
                out.push('-');
                push_decimal(out, (0 - n as i128) as u64);
            } else {
                push_decimal(out, n as u64);
            }
        },
        AST::Word(w) => {
            out.append(w.as_str());
        },
        AST::Cons { head, tail } => {
            out.append("( ");
            write_ast(*head, out);
            out.append(" : ");
            write_ast(*tail, out);
            out.append(" )");
        },
    }
    assert(out@ =~= old(out)@ + render(tree@));
}

/// Renders a tree as text: the empty list as `[]`, a number in decimal, a
/// symbol as it is, and a cons cell as `( head : tail )`.
pub fn format_ast(tree: AST) -> (text: String)
    ensures
        text@ == render(tree@),
{
    let mut text = String::new();
    write_ast(tree, &mut text);
    assert(text@ =~= render(tree@));
    text
}

/// The decimal text of a number holds digits only, and at least one.
pub proof fn lemma_nat_text_is_digits(n: nat)
    ensures
        nat_text(n).len() >= 1,
        forall|k: int| 0 <= k < nat_text(n).len() ==> is_digit(#[trigger] nat_text(n)[k]),
    decreases n,
{
    if n >= 10 {
        lemma_nat_text_is_digits(n / 10);
    }
}

/// The decimal text of a number spells that number.
pub proof fn lemma_nat_text_value(n: nat)
    ensures
        decimal_value(nat_text(n)) == n,
    decreases n,
{
    let s = nat_text(n);
    assert(s.last() == digit_char(n as int % 10));
    assert(digit_value(digit_char(n as int % 10)) == n % 10);
    if n >= 10 {
        lemma_nat_text_value(n / 10);
        assert(s.drop_last() =~= nat_text(n / 10));
    } else {
        assert(s.drop_last() =~= Seq::<char>::empty());
        assert(decimal_value(Seq::<char>::empty()) == 0);
    }
    assert(decimal_value(s) == 10 * decimal_value(s.drop_last()) + digit_value(s.last()));
}

} // verus!
