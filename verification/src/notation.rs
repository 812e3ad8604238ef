//! The notation that the parser reads, written out: for every tree that a
//! text can spell, one text that spells it.
//!
//! With `lemma_expr_at_is_readable` this says which trees the parser gives:
//! the readable ones, all of them and no others.

use vstd::prelude::*;
use crate::ast::Tree;
use crate::parser::{
    expr_at, is_readable, is_readable_list, lemma_leading_whitespace, list_at, parse_text,
    SyntaxError,
};
use crate::printer::{lemma_nat_text_is_digits, lemma_nat_text_value, nat_text, render};
use crate::scanner::{is_delimiter, is_digit, is_space, lemma_run_ends_at};

verus! {

/// The text of `t` in list notation: a number in decimal, a symbol as it is,
/// and a list as its elements between parentheses, a space after each.
pub open spec fn spelled(t: Tree) -> Seq<char>
    decreases t, 1int,
{
    match t {
        Tree::Num(n) => nat_text(n as nat),
        Tree::Word(w) => w,
        _ => seq!['('] + spelled_rest(t),
    }
}

/// The text of the elements of a list, with the closing parenthesis.
pub open spec fn spelled_rest(t: Tree) -> Seq<char>
    decreases t, 0int,
{
    match t {
        Tree::Cons { head, tail } => spelled(*head) + seq![' '] + spelled_rest(*tail),
        _ => seq![')'],
    }
}

/// The text of an element starts with a character that is neither whitespace
/// nor a closing parenthesis.
proof fn lemma_spelled_starts(t: Tree)
    requires
        is_readable(t),
        t != Tree::Word(Seq::<char>::empty()),
    ensures
        spelled(t).len() > 0,
        !is_space(spelled(t)[0]),
        spelled(t)[0] != ')',
{
    match t {
        Tree::Num(n) => {
            lemma_nat_text_is_digits(n as nat);
        },
        Tree::Word(w) => {
            assert(w.len() > 0) by {
                if w.len() == 0 {
                    assert(w =~= Seq::<char>::empty());
                }
            }
            assert(!is_delimiter(w[0]));
        },
        _ => {},
    }
}

/// Where a text holds the spelling of `t` from `i` on, and a number or a
/// symbol is followed by a delimiter or by the end of the text, the
/// expression at `i` is `t`, and it ends where the spelling does.
pub proof fn lemma_expr_at_spelled(s: Seq<char>, i: int, t: Tree)
    requires
        is_readable(t),
        t != Tree::Word(Seq::<char>::empty()),
        0 <= i,
        i + spelled(t).len() <= s.len(),
        s.subrange(i, i + spelled(t).len()) == spelled(t),
        (t is Num || t is Word) ==> (i + spelled(t).len() == s.len() || is_delimiter(
            s[i + spelled(t).len()],
        )),
    ensures
        expr_at(s, i) == Ok::<(Tree, int), SyntaxError>((t, i + spelled(t).len())),
    decreases t, 1int,
{
    let text = spelled(t);
    let end = i + text.len();
    lemma_spelled_starts(t);
    assert(s[i] == text[0]);
    assert forall|k: int| i <= k < end implies s[k] == #[trigger] text[k - i] by {
        assert(s.subrange(i, end)[k - i] == s[k]);
    }
    lemma_run_ends_at(s, i, i, |c: char| is_space(c));
    match t {
        Tree::Num(n) => {
            lemma_nat_text_is_digits(n as nat);
            lemma_nat_text_value(n as nat);
            assert forall|k: int| i <= k < end implies is_digit(#[trigger] s[k]) by {
                assert(s[k] == text[k - i]);
            }
            lemma_run_ends_at(s, i, end, |c: char| is_digit(c));
        },
        Tree::Word(w) => {
            assert forall|k: int| i <= k < end implies !is_delimiter(#[trigger] s[k]) by {
                assert(s[k] == text[k - i]);
            }
            lemma_run_ends_at(s, i, end, |c: char| !is_delimiter(c));
        },
        _ => {
            let rest = spelled_rest(t);
            assert(s.subrange(i + 1, i + 1 + rest.len()) =~= rest) by {
                assert forall|j: int| 0 <= j < rest.len() implies s[i + 1 + j] == rest[j] by {
                    assert(s[i + 1 + j] == text[1 + j]);
                }
            }
            lemma_list_at_spelled(s, i + 1, t);
        },
    }
}

/// Where a text holds the spelling of the elements of a list from `i` on, the
/// rest of the list at `i` is that list, and it ends where the spelling does.
pub proof fn lemma_list_at_spelled(s: Seq<char>, i: int, t: Tree)
    requires
        is_readable_list(t),
        0 <= i,
        i + spelled_rest(t).len() <= s.len(),
        s.subrange(i, i + spelled_rest(t).len()) == spelled_rest(t),
    ensures
        list_at(s, i) == Ok::<(Tree, int), SyntaxError>((t, i + spelled_rest(t).len())),
    decreases t, 0int,
{
    let text = spelled_rest(t);
    let end = i + text.len();
    assert forall|k: int| i <= k < end implies s[k] == #[trigger] text[k - i] by {
        assert(s.subrange(i, end)[k - i] == s[k]);
    }
    assert(s[i] == text[0]);
    match t {
        Tree::Cons { head, tail } => {
            let first = spelled(*head);
            let rest = spelled_rest(*tail);
            let gap = i + first.len();
            lemma_spelled_starts(*head);
            lemma_run_ends_at(s, i, i, |c: char| is_space(c));
            assert(s.subrange(i, gap) =~= first) by {
                assert forall|j: int| 0 <= j < first.len() implies s[i + j] == first[j] by {
                    assert(s[i + j] == text[j]);
                }
            }
            assert(s[gap] == ' ') by {
                assert(s[gap] == text[gap - i]);
            }
            lemma_expr_at_spelled(s, i, *head);
            assert(s.subrange(gap + 1, gap + 1 + rest.len()) =~= rest) by {
                assert forall|j: int| 0 <= j < rest.len() implies s[gap + 1 + j] == rest[j] by {
                    assert(s[gap + 1 + j] == text[first.len() + 1 + j]);
                }
            }
            lemma_list_at_spelled(s, gap + 1, *tail);
            assert(s[gap + 1] == rest[0]);
            assert(!is_space(rest[0])) by {
                assert(is_readable_list(*tail));
                if let Tree::Cons { head: next, tail: _ } = *tail {
                    lemma_spelled_starts(*next);
                }
            }
            lemma_run_ends_at(s, gap, gap + 1, |c: char| is_space(c));
            lemma_leading_whitespace(s, gap);
        },
        _ => {
            lemma_run_ends_at(s, i, i, |c: char| is_space(c));
        },
    }
}

/// Every readable tree is read from its spelling: the parser gives each of
/// them for some text.
pub proof fn lemma_spelled_parses_back(t: Tree)
    requires
        is_readable(t),
    ensures
        parse_text(spelled(t)) == Ok::<Tree, SyntaxError>(t),
{
    let s = spelled(t);
    if t == Tree::Word(Seq::<char>::empty()) {
        lemma_run_ends_at(s, 0, 0, |c: char| is_space(c));
        lemma_run_ends_at(s, 0, 0, |c: char| !is_delimiter(c));
        assert(s.subrange(0, 0) =~= s);
    } else {
        assert(s.subrange(0, s.len() as int) =~= s);
        lemma_expr_at_spelled(s, 0, t);
    }
}

/// What the formatter writes for a readable number or symbol is read as that
/// number or symbol.
pub proof fn lemma_rendered_atom_parses_back(t: Tree)
    requires
        is_readable(t),
        t is Num || t is Word,
    ensures
        parse_text(render(t)) == Ok::<Tree, SyntaxError>(t),
{
    lemma_spelled_parses_back(t);
}

} // verus!
