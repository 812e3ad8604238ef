//! The recursive-descent parser: from text to an expression tree.
//!
//! The grammar, with `WS` one of space, newline and tab:
//!
//! ```text
//! expr    := WS* ( number | symbol | '(' list )
//! list    := WS* ')' | expr list
//! number  := DIGIT+
//! symbol  := (any char except WS, '(', ')')*
//! ```

use vstd::prelude::*;
use vstd::pervasive::arbitrary;
use crate::ast::{is_proper, AST, Tree};
use crate::scanner::{
    char_at, digits_end, is_delimiter, is_digit, is_space, lemma_run_end, spaces_end, strip_ws,
    word_end, Cursor,
};

verus! {

/// Why a text is not an expression. `at` is an index into the text, counted
/// in characters.
#[derive(Debug, Clone, Copy, PartialEq, Eq)]
pub enum SyntaxError {
    /// A `)` at `at` closes no list.
    UnexpectedClose { at: usize },
    /// The text ends at `at` inside a list.
    UnterminatedList { at: usize },
    /// The digits that start at `at` spell a number above `i64::MAX`.
    NumberTooLarge { at: usize },
}

/// The value of a decimal digit.
pub open spec fn digit_value(c: char) -> int {
    c as int - '0' as int
}

/// The number that a run of decimal digits spells in base ten.
pub open spec fn decimal_value(digits: Seq<char>) -> int
    decreases digits.len(),
{
    if digits.len() == 0 {
        0
    } else {
        10 * decimal_value(digits.drop_last()) + digit_value(digits.last())
    }
}

/// The number whose digits start at `i`, and where they end.
pub open spec fn number_at(s: Seq<char>, i: int) -> Result<(Tree, int), SyntaxError> {
    let end = digits_end(s, i);
    let value = decimal_value(s.subrange(i, end));
    if value <= i64::MAX {
        Ok((Tree::Num(value), end))
    } else {
        Err(SyntaxError::NumberTooLarge { at: i as usize })
    }
}

/// The symbol that starts at `i`, and where it ends. It is empty where `i` is
/// at a delimiter or at the end of the text.
pub open spec fn word_at(s: Seq<char>, i: int) -> (Tree, int) {
    (Tree::Word(s.subrange(i, word_end(s, i))), word_end(s, i))
}

/// The expression that starts at `i`, after any whitespace, and where it ends.
pub open spec fn expr_at(s: Seq<char>, i: int) -> Result<(Tree, int), SyntaxError>
    decreases s.len() - i, 0int,
{
    let k = spaces_end(s, i);
    let next = char_at(s, k);
    if next == Some(')') {
        Err(SyntaxError::UnexpectedClose { at: k as usize })
    } else if next == Some('(') {
        proof {
            lemma_run_end(s, i, |c: char| is_space(c));
        }
        list_at(s, k + 1)
    } else if next is Some && is_digit(next->0) {
        number_at(s, k)
    } else {
        Ok(word_at(s, k))
    }
}

/// The rest of a list whose opening parenthesis has been read: the elements
/// from `i` up to the closing parenthesis, and the index after it.
pub open spec fn list_at(s: Seq<char>, i: int) -> Result<(Tree, int), SyntaxError>
    decreases s.len() - i, 1int,
{
    let k = spaces_end(s, i);
    let next = char_at(s, k);
    if next is None {
        Err(SyntaxError::UnterminatedList { at: k as usize })
    } else if next == Some(')') {
        Ok((Tree::Nil, k + 1))
    } else {
        proof {
            lemma_run_end(s, i, |c: char| is_space(c));
        }
        match expr_at(s, k) {
            Err(e) => Err(e),
            Ok((head, after)) => {
                // An element is at least one character long, so the first
                // branch is the one taken: see `lemma_expr_at_advances`.
                if k < after <= s.len() {
                    match list_at(s, after) {
                        Err(e) => Err(e),
                        Ok((tail, end)) => Ok(
                            (Tree::Cons { head: Box::new(head), tail: Box::new(tail) }, end),
                        ),
                    }
                } else {
                    arbitrary()
                }
            },
        }
    }
}

/// The first expression of a text. What follows it is not read.
pub open spec fn parse_text(s: Seq<char>) -> Result<Tree, SyntaxError> {
    match expr_at(s, 0) {
        Ok((tree, _)) => Ok(tree),
        Err(e) => Err(e),
    }
}

/// What a parsing function reports: the model of its tree with the index at
/// which the cursor stopped, or its error.
pub open spec fn parsed(res: Result<AST, SyntaxError>, end: int) -> Result<(Tree, int), SyntaxError> {
    match res {
        Ok(tree) => Ok((tree@, end)),
        Err(e) => Err(e),
    }
}

/// What `parse` reports, as a model.
pub open spec fn outcome(res: Result<AST, SyntaxError>) -> Result<Tree, SyntaxError> {
    match res {
        Ok(tree) => Ok(tree@),
        Err(e) => Err(e),
    }
}

/// Reads the number in front of the cursor: the longest run of decimal digits,
/// taken in base ten. Fails where the number is above `i64::MAX`.
pub fn parse_num(iter: &mut Cursor) -> (res: Result<AST, SyntaxError>)
    requires
        char_at(old(iter).text(), old(iter).pos()) is Some,
        is_digit(char_at(old(iter).text(), old(iter).pos())->0),
    ensures
        final(iter).text() == old(iter).text(),
        parsed(res, final(iter).pos()) == number_at(old(iter).text(), old(iter).pos()),
{
    let start = iter.position();
    // The number read so far, or `None` once it has passed `i64::MAX`.
    let mut value: Option<i64> = Some(0);
    loop
        invariant
            iter.text() == old(iter).text(),
            start == old(iter).pos(),
            start <= iter.pos() <= iter.text().len(),
            digits_end(iter.text(), iter.pos()) == digits_end(iter.text(), start as int),
            match value {
                Some(v) => 0 <= v == decimal_value(
                    iter.text().subrange(start as int, iter.pos()),
                ),
                None => decimal_value(iter.text().subrange(start as int, iter.pos())) > i64::MAX,
            },
        ensures
            iter.text() == old(iter).text(),
            iter.pos() == digits_end(iter.text(), start as int),
            match value {
                Some(v) => v == decimal_value(iter.text().subrange(start as int, iter.pos())),
                None => decimal_value(iter.text().subrange(start as int, iter.pos())) > i64::MAX,
            },
        decreases iter.text().len() - iter.pos(),
    {
        let c = match iter.peek() {
            Some(c) => c,
            None => {
                break ;
            },
        };
        if !('0' <= c && c <= '9') {
            break ;
        }
        proof {
            let run = iter.text().subrange(start as int, iter.pos() + 1);
            assert(run.drop_last() == iter.text().subrange(start as int, iter.pos()));
            assert(run.last() == c);
        }
        let digit: i64 = (c as u32 - '0' as u32) as i64;
        value = match value {
            Some(v) => match v.checked_mul(10) {
                Some(tens) => tens.checked_add(digit),
                None => None,
            },
            None => None,
        };
        iter.advance();
    }
    match value {
        Some(v) => Ok(AST::Num(v)),
        None => Err(SyntaxError::NumberTooLarge { at: start }),
    }
}

/// Reads the symbol in front of the cursor: every character up to the next
/// whitespace or parenthesis, or to the end of the text. The symbol is empty
/// where the cursor is at one of these.
pub fn parse_word(iter: &mut Cursor) -> (word: AST)
    ensures
        final(iter).text() == old(iter).text(),
        (word@, final(iter).pos()) == word_at(old(iter).text(), old(iter).pos()),
{
    let ghost start = iter.pos();
    let mut word = String::new();
    proof {
        use_type_invariant(&*iter);
    }
    loop
        invariant
            iter.text() == old(iter).text(),
            start == old(iter).pos(),
            0 <= start <= iter.pos() <= iter.text().len(),
            word_end(iter.text(), iter.pos()) == word_end(iter.text(), start),
            word@ == iter.text().subrange(start, iter.pos()),
        ensures
            iter.text() == old(iter).text(),
            iter.pos() == word_end(iter.text(), start),
            word@ == iter.text().subrange(start, iter.pos()),
        decreases iter.text().len() - iter.pos(),
    {
        let c = match iter.peek() {
            Some(c) => c,
            None => {
                break ;
            },
        };
        if c == ' ' || c == '\n' || c == '\t' || c == '(' || c == ')' {
            break ;
        }
        word.push(c);
        iter.advance();
        assert(word@ =~= iter.text().subrange(start, iter.pos()));
    }
    AST::Word(word)
}

/// Reads one expression: whitespace, then a list, a number or a symbol. Fails
/// on a `)` that closes no list, and where a list or a number in it fails.
pub fn parse_sexpr(iter: &mut Cursor) -> (res: Result<AST, SyntaxError>)
    ensures
        final(iter).text() == old(iter).text(),
        parsed(res, final(iter).pos()) == expr_at(old(iter).text(), old(iter).pos()),
    decreases old(iter).text().len() - old(iter).pos(), 0int,
{
    strip_ws(iter);
    proof {
        lemma_run_end(old(iter).text(), old(iter).pos(), |c: char| is_space(c));
    }
    match iter.peek() {
        Some(c) => {
            if c == ')' {
                Err(SyntaxError::UnexpectedClose { at: iter.position() })
            } else if c == '(' {
                iter.advance();
                parse_cons(iter)
            } else if '0' <= c && c <= '9' {
                parse_num(iter)
            } else {
                Ok(parse_word(iter))
            }
        },
        None => Ok(parse_word(iter)),
    }
}

/// Reads the rest of a list whose opening parenthesis has been read: the
/// elements up to the closing parenthesis, as a chain of cons cells. Fails
/// where the text ends before the list does, and where an element fails.
pub fn parse_cons(iter: &mut Cursor) -> (res: Result<AST, SyntaxError>)
    ensures
        final(iter).text() == old(iter).text(),
        parsed(res, final(iter).pos()) == list_at(old(iter).text(), old(iter).pos()),
    decreases old(iter).text().len() - old(iter).pos(), 1int,
{
    strip_ws(iter);
    proof {
        lemma_run_end(old(iter).text(), old(iter).pos(), |c: char| is_space(c));
    }
    match iter.peek() {
        None => Err(SyntaxError::UnterminatedList { at: iter.position() }),
        Some(c) => {
            if c == ')' {
                iter.advance();
                Ok(AST::Nil)
            } else {
                let ghost k = iter.pos();
                proof {
                    lemma_expr_at_advances(iter.text(), k);
                    assert(spaces_end(iter.text(), k) == k);
                }
                let head = match parse_sexpr(iter) {
                    Ok(head) => head,
                    Err(e) => {
                        return Err(e);
                    },
                };
                let tail = match parse_cons(iter) {
                    Ok(tail) => tail,
                    Err(e) => {
                        return Err(e);
                    },
                };
                Ok(AST::Cons { head: Box::new(head), tail: Box::new(tail) })
            }
        },
    }
}

/// Parses the first expression of `text`. What follows it is not read.
pub fn parse(text: &str) -> (res: Result<AST, SyntaxError>)
    ensures
        match res {
            Ok(tree) => parse_text(text@) == Ok::<Tree, SyntaxError>(tree@),
            Err(e) => parse_text(text@) == Err::<Tree, SyntaxError>(e),
        },
{
    let mut iter = Cursor::new(text);
    parse_sexpr(&mut iter)
}

/// Parsing is deterministic: whatever two runs of `parse` on the same text
/// return, both fail with the same error or both give the same tree.
pub proof fn lemma_parse_is_deterministic(
    text: &str,
    again: &str,
    first: Result<AST, SyntaxError>,
    second: Result<AST, SyntaxError>,
)
    requires
        text@ == again@,
        call_ensures(parse, (text,), first),
        call_ensures(parse, (again,), second),
    ensures
        outcome(first) == outcome(second),
{
}

/// An expression ends inside the text, and after its first character where
/// it has one.
pub proof fn lemma_expr_at_advances(s: Seq<char>, i: int)
    requires
        0 <= i <= s.len(),
    ensures
        expr_at(s, i) matches Ok((_, end)) ==> {
            &&& spaces_end(s, i) <= end <= s.len()
            &&& spaces_end(s, i) < s.len() ==> spaces_end(s, i) < end
        },
    decreases s.len() - i, 0int,
{
    let k = spaces_end(s, i);
    lemma_run_end(s, i, |c: char| is_space(c));
    lemma_run_end(s, k, |c: char| is_digit(c));
    lemma_run_end(s, k, |c: char| !is_delimiter(c));
    if char_at(s, k) == Some('(') {
        lemma_list_at_advances(s, k + 1);
    }
}

/// The rest of a list ends inside the text, after at least one character.
pub proof fn lemma_list_at_advances(s: Seq<char>, i: int)
    requires
        0 <= i <= s.len(),
    ensures
        list_at(s, i) matches Ok((_, end)) ==> i < end <= s.len(),
    decreases s.len() - i, 1int,
{
    let k = spaces_end(s, i);
    lemma_run_end(s, i, |c: char| is_space(c));
    if char_at(s, k) is Some && char_at(s, k) != Some(')') {
        lemma_expr_at_advances(s, k);
        if let Ok((_, after)) = expr_at(s, k) {
            assert(spaces_end(s, k) == k);
            lemma_list_at_advances(s, after);
        }
    }
}

/// Whitespace in front of an expression, or in front of the rest of a list,
/// makes no difference.
pub proof fn lemma_leading_whitespace(s: Seq<char>, i: int)
    ensures
        expr_at(s, i) == expr_at(s, spaces_end(s, i)),
        list_at(s, i) == list_at(s, spaces_end(s, i)),
{
    lemma_run_end(s, i, |c: char| is_space(c));
    assert(spaces_end(s, spaces_end(s, i)) == spaces_end(s, i));
}

/// Whether a symbol reads back as it is: it does not start with a digit and
/// holds neither whitespace nor a parenthesis.
pub open spec fn is_plain_word(w: Seq<char>) -> bool {
    &&& w.len() > 0 ==> !is_digit(w[0])
    &&& forall|k: int| 0 <= k < w.len() ==> !is_delimiter(#[trigger] w[k])
}

/// Whether `t` is a tree that a text can spell: its numbers are not negative
/// and fit in `i64`, its symbols are plain, and its lists are well formed and
/// hold no empty symbol.
pub open spec fn is_readable(t: Tree) -> bool
    decreases t, 1int,
{
    match t {
        Tree::Num(n) => 0 <= n <= i64::MAX,
        Tree::Word(w) => is_plain_word(w),
        Tree::Nil => true,
        Tree::Cons { .. } => is_readable_list(t),
    }
}

/// Whether `t` is a list of readable elements, none of them the empty symbol.
pub open spec fn is_readable_list(t: Tree) -> bool
    decreases t, 0int,
{
    match t {
        Tree::Nil => true,
        Tree::Cons { head, tail } => {
            &&& is_readable(*head)
            &&& *head != Tree::Word(Seq::<char>::empty())
            &&& is_readable_list(*tail)
        },
        _ => false,
    }
}

/// A run of digits spells a number that is not negative.
pub proof fn lemma_decimal_value_of_digits(digits: Seq<char>)
    requires
        forall|k: int| 0 <= k < digits.len() ==> is_digit(#[trigger] digits[k]),
    ensures
        0 <= decimal_value(digits),
    decreases digits.len(),
{
    if digits.len() > 0 {
        lemma_decimal_value_of_digits(digits.drop_last());
    }
}

/// The parser gives readable trees only: a negative number, a symbol with a
/// parenthesis in it, or a list that does not end in the empty list is never
/// read from a text. The empty symbol is read at the end of the text only.
pub proof fn lemma_expr_at_is_readable(s: Seq<char>, i: int)
    requires
        0 <= i <= s.len(),
    ensures
        expr_at(s, i) matches Ok((tree, _)) ==> {
            &&& is_readable(tree)
            &&& tree == Tree::Word(Seq::<char>::empty()) ==> spaces_end(s, i) == s.len()
        },
    decreases s.len() - i, 0int,
{
    let k = spaces_end(s, i);
    lemma_run_end(s, i, |c: char| is_space(c));
    lemma_run_end(s, k, |c: char| is_digit(c));
    lemma_run_end(s, k, |c: char| !is_delimiter(c));
    let next = char_at(s, k);
    if next == Some('(') {
        lemma_list_at_is_readable(s, k + 1);
    } else if next is Some && is_digit(next->0) {
        lemma_decimal_value_of_digits(s.subrange(k, digits_end(s, k)));
    } else if next is Some && next != Some(')') {
        assert(s.subrange(k, word_end(s, k)).len() > 0);
    }
}

/// The rest of a list is read as a list of readable elements.
pub proof fn lemma_list_at_is_readable(s: Seq<char>, i: int)
    requires
        0 <= i <= s.len(),
    ensures
        list_at(s, i) matches Ok((tree, _)) ==> is_readable_list(tree),
    decreases s.len() - i, 1int,
{
    let k = spaces_end(s, i);
    lemma_run_end(s, i, |c: char| is_space(c));
    if char_at(s, k) is Some && char_at(s, k) != Some(')') {
        lemma_expr_at_is_readable(s, k);
        lemma_expr_at_advances(s, k);
        if let Ok((head, after)) = expr_at(s, k) {
            assert(spaces_end(s, k) == k);
            lemma_list_at_is_readable(s, after);
        }
    }
}

/// Every list in a readable tree is well formed.
pub proof fn lemma_readable_is_proper(t: Tree)
    requires
        is_readable(t) || is_readable_list(t),
    ensures
        is_proper(t),
    decreases t,
{
    if let Tree::Cons { head, tail } = t {
        lemma_readable_is_proper(*head);
        lemma_readable_is_proper(*tail);
    }
}

} // verus!
