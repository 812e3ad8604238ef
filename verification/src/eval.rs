//! The evaluator: reduces call forms to values.
//!
//! Every element of a list is evaluated, first to last, before the list is
//! applied as a call. A list whose first element is not a symbol is no call
//! and fails; a number, a symbol or the empty list standing alone evaluates
//! to itself.

use vstd::prelude::*;
use crate::ast::{is_proper, AST, Tree};
use crate::parser::{lemma_expr_at_is_readable, lemma_readable_is_proper, parse_text};
use crate::text::same_text;

verus! {

/// Why an expression has no value.
#[derive(Debug, PartialEq, Eq)]
pub enum EvalError {
    /// The symbol in call position names no built-in operation.
    UndefinedFunction(String),
    /// The first element of a list is not a symbol.
    NotAFunction,
    /// An argument of `+` or `*` is not a number.
    TypeMismatch,
    /// The arguments of `+` or `*` do not end in the empty list.
    Malformed,
    /// The arguments of `first` or `tail` are not one non-empty list.
    NotAList,
    /// A sum or a product left the range of `i64`.
    Overflow,
}

/// The model of an [`EvalError`], variant for variant. An undefined function
/// is known by the characters of its name.
pub enum EvalFailure {
    UndefinedFunction(Seq<char>),
    NotAFunction,
    TypeMismatch,
    Malformed,
    NotAList,
    Overflow,
}

impl View for EvalError {
    type V = EvalFailure;

    open spec fn view(&self) -> EvalFailure {
        match self {
            EvalError::UndefinedFunction(name) => EvalFailure::UndefinedFunction(name@),
            EvalError::NotAFunction => EvalFailure::NotAFunction,
            EvalError::TypeMismatch => EvalFailure::TypeMismatch,
            EvalError::Malformed => EvalFailure::Malformed,
            EvalError::NotAList => EvalFailure::NotAList,
            EvalError::Overflow => EvalFailure::Overflow,
        }
    }
}

/// The built-in operations.
#[derive(Debug, Clone, Copy, PartialEq, Eq)]
pub enum Builtin {
    /// `+`, `plus`, `add`: the sum of the arguments.
    Add,
    /// `*`, `times`, `mul`: the product of the arguments.
    Mul,
    /// `list`: the arguments themselves, as a list.
    List,
    /// `first`: the first element of the one argument, a list.
    First,
    /// `tail`: what follows the first element of the one argument, a list.
    Tail,
}

/// The operation that a symbol names. Names are matched exactly, case and all.
pub open spec fn builtin_named(name: Seq<char>) -> Option<Builtin> {
    if name == "+"@ || name == "plus"@ || name == "add"@ {
        Some(Builtin::Add)
    } else if name == "*"@ || name == "times"@ || name == "mul"@ {
        Some(Builtin::Mul)
    } else if name == "list"@ {
        Some(Builtin::List)
    } else if name == "first"@ {
        Some(Builtin::First)
    } else if name == "tail"@ {
        Some(Builtin::Tail)
    } else {
        None
    }
}

/// Whether `n` is a value of `i64`.
pub open spec fn fits_i64(n: int) -> bool {
    i64::MIN <= n <= i64::MAX
}

/// The left fold of a list of numbers with `op`, from `acc`: each element in
/// turn is combined with what the elements before it gave. The fold stops at
/// the first element that is no number, at the first result outside `i64`,
/// and at an end of the chain that is not the empty list.
pub open spec fn fold_numbers(list: Tree, acc: int, op: spec_fn(int, int) -> int) -> Result<
    int,
    EvalFailure,
>
    decreases list,
{
    match list {
        Tree::Nil => Ok(acc),
        Tree::Cons { head, tail } => match *head {
            Tree::Num(n) => if fits_i64(op(acc, n)) {
                fold_numbers(*tail, op(acc, n), op)
            } else {
                Err(EvalFailure::Overflow)
            },
            _ => Err(EvalFailure::TypeMismatch),
        },
        _ => Err(EvalFailure::Malformed),
    }
}

/// The sum of a list of numbers; 0 for the empty list.
pub open spec fn sum_of(list: Tree) -> Result<int, EvalFailure> {
    fold_numbers(list, 0, |a: int, b: int| a + b)
}

/// The product of a list of numbers; 1 for the empty list.
pub open spec fn product_of(list: Tree) -> Result<int, EvalFailure> {
    fold_numbers(list, 1, |a: int, b: int| a * b)
}

/// The one element of a one-element list.
pub open spec fn sole_element(list: Tree) -> Option<Tree> {
    match list {
        Tree::Cons { head, tail } => if *tail is Nil {
            Some(*head)
        } else {
            None
        },
        _ => None,
    }
}

/// The first element of the one argument, which is a non-empty list.
pub open spec fn first_of(args: Tree) -> Result<Tree, EvalFailure> {
    match sole_element(args) {
        Some(Tree::Cons { head, tail }) => Ok(*head),
        _ => Err(EvalFailure::NotAList),
    }
}

/// What follows the first element of the one argument, which is a non-empty
/// list.
pub open spec fn rest_of(args: Tree) -> Result<Tree, EvalFailure> {
    match sole_element(args) {
        Some(Tree::Cons { head, tail }) => Ok(*tail),
        _ => Err(EvalFailure::NotAList),
    }
}

/// The value of the call of `name` on arguments that have been evaluated.
pub open spec fn apply(name: Seq<char>, args: Tree) -> Result<Tree, EvalFailure> {
    match builtin_named(name) {
        Some(Builtin::Add) => match sum_of(args) {
            Ok(n) => Ok(Tree::Num(n)),
            Err(e) => Err(e),
        },
        Some(Builtin::Mul) => match product_of(args) {
            Ok(n) => Ok(Tree::Num(n)),
            Err(e) => Err(e),
        },
        Some(Builtin::List) => Ok(args),
        Some(Builtin::First) => first_of(args),
        Some(Builtin::Tail) => rest_of(args),
        None => Err(EvalFailure::UndefinedFunction(name)),
    }
}

/// The value of an expression.
pub open spec fn eval(t: Tree) -> Result<Tree, EvalFailure>
    decreases t, 1int,
{
    match flatten_heads(t) {
        Err(e) => Err(e),
        Ok(Tree::Cons { head, tail }) => match *head {
            Tree::Word(name) => apply(name, *tail),
            _ => Err(EvalFailure::NotAFunction),
        },
        Ok(atom) => Ok(atom),
    }
}

/// The list `t` with each element replaced by its value, first to last. The
/// first element that has no value decides the failure. What is no cons cell
/// stays as it is.
pub open spec fn flatten_heads(t: Tree) -> Result<Tree, EvalFailure>
    decreases t, 0int,
{
    match t {
        Tree::Cons { head, tail } => match eval(*head) {
            Err(e) => Err(e),
            Ok(value) => match flatten_heads(*tail) {
                Err(e) => Err(e),
                Ok(rest) => Ok(Tree::Cons { head: Box::new(value), tail: Box::new(rest) }),
            },
        },
        _ => Ok(t),
    }
}

/// What an evaluation reports, as models.
pub open spec fn outcome(res: Result<AST, EvalError>) -> Result<Tree, EvalFailure> {
    match res {
        Ok(tree) => Ok(tree@),
        Err(e) => Err(e@),
    }
}

/// What a fold reports, as models.
pub open spec fn folded(res: Result<i64, EvalError>) -> Result<int, EvalFailure> {
    match res {
        Ok(n) => Ok(n as int),
        Err(e) => Err(e@),
    }
}

/// Looks up the built-in operation that `name` spells.
pub fn lookup_builtin(name: &str) -> (op: Option<Builtin>)
    ensures
        op == builtin_named(name@),
{
    if same_text(name, "+") || same_text(name, "plus") || same_text(name, "add") {
        Some(Builtin::Add)
    } else if same_text(name, "*") || same_text(name, "times") || same_text(name, "mul") {
        Some(Builtin::Mul)
    } else if same_text(name, "list") {
        Some(Builtin::List)
    } else if same_text(name, "first") {
        Some(Builtin::First)
    } else if same_text(name, "tail") {
        Some(Builtin::Tail)
    } else {
        None
    }
}

/// Adds up a list of numbers, first to last.
pub fn eval_add(tree: AST) -> (res: Result<i64, EvalError>)
    ensures
        folded(res) == sum_of(tree@),
{
    let ghost plus = |a: int, b: int| a + b;
    let ghost whole = tree@;
    let mut acc: i64 = 0;
    let mut rest = tree;
    loop
        invariant
            whole == tree@,
            plus == |a: int, b: int| a + b,
            fold_numbers(rest@, acc as int, plus) == fold_numbers(whole, 0, plus),
        decreases rest,
    {
        proof {
            reveal_with_fuel(AST::model, 2);
        }
        match rest {
            AST::Nil => {
                return Ok(acc);
            },
            AST::Cons { head, tail } => match *head {
                AST::Num(n) => match acc.checked_add(n) {
                    Some(sum) => {
                        acc = sum;
                        rest = *tail;
                    },
                    None => {
                        return Err(EvalError::Overflow);
                    },
                },
                _ => {
                    return Err(EvalError::TypeMismatch);
                },
            },
            _ => {
                return Err(EvalError::Malformed);
            },
        }
    }
}

/// Multiplies a list of numbers, first to last.
pub fn eval_mul(tree: AST) -> (res: Result<i64, EvalError>)
    ensures
        folded(res) == product_of(tree@),
{
    let ghost times = |a: int, b: int| a * b;
    let ghost whole = tree@;
    let mut acc: i64 = 1;
    let mut rest = tree;
    loop
        invariant
            whole == tree@,
            times == |a: int, b: int| a * b,
            fold_numbers(rest@, acc as int, times) == fold_numbers(whole, 1, times),
        decreases rest,
    {
        proof {
            reveal_with_fuel(AST::model, 2);
        }
        match rest {
            AST::Nil => {
                return Ok(acc);
            },
            AST::Cons { head, tail } => match *head {
                AST::Num(n) => match acc.checked_mul(n) {
                    Some(product) => {
                        acc = product;
                        rest = *tail;
                    },
                    None => {
                        return Err(EvalError::Overflow);
                    },
                },
                _ => {
                    return Err(EvalError::TypeMismatch);
                },
            },
            _ => {
                return Err(EvalError::Malformed);
            },
        }
    }
}

/// The first element of the one argument, which has to be a non-empty list.
pub fn eval_first(tree: AST) -> (res: Result<AST, EvalError>)
    ensures
        outcome(res) == first_of(tree@),
{
    proof {
        reveal_with_fuel(AST::model, 3);
    }
    match tree {
        AST::Cons { head, tail } => match (*head, *tail) {
            (AST::Cons { head: first, tail: _ }, AST::Nil) => Ok(*first),
            _ => Err(EvalError::NotAList),
        },
        _ => Err(EvalError::NotAList),
    }
}

/// What follows the first element of the one argument, which has to be a
/// non-empty list.
pub fn eval_tail(tree: AST) -> (res: Result<AST, EvalError>)
    ensures
        outcome(res) == rest_of(tree@),
{
    proof {
        reveal_with_fuel(AST::model, 3);
    }
    match tree {
        AST::Cons { head, tail } => match (*head, *tail) {
            (AST::Cons { head: _, tail: rest }, AST::Nil) => Ok(*rest),
            _ => Err(EvalError::NotAList),
        },
        _ => Err(EvalError::NotAList),
    }
}

/// Evaluates an expression: the elements of a list first, then the list as
/// the call of the operation that its first element names.
pub fn eval_tree(tree: AST) -> (res: Result<AST, EvalError>)
    ensures
        outcome(res) == eval(tree@),
    decreases tree, 1int,
{
    let flat = match eval_flatten_heads(tree) {
        Ok(flat) => flat,
        Err(e) => {
            return Err(e);
        },
    };
    proof {
        reveal_with_fuel(AST::model, 2);
    }
    match flat {
        AST::Cons { head, tail } => match *head {
            AST::Word(name) => match lookup_builtin(name.as_str()) {
                Some(Builtin::Add) => match eval_add(*tail) {
                    Ok(n) => Ok(AST::Num(n)),
                    Err(e) => Err(e),
                },
                Some(Builtin::Mul) => match eval_mul(*tail) {
                    Ok(n) => Ok(AST::Num(n)),
                    Err(e) => Err(e),
                },
                Some(Builtin::List) => Ok(*tail),
                Some(Builtin::First) => eval_first(*tail),
                Some(Builtin::Tail) => eval_tail(*tail),
                None => Err(EvalError::UndefinedFunction(name)),
            },
            _ => Err(EvalError::NotAFunction),
        },
        atom => Ok(atom),
    }
}

/// Evaluates each element of a list, first to last, and keeps the chain as it
/// is. What is no cons cell is returned as it is.
pub fn eval_flatten_heads(tree: AST) -> (res: Result<AST, EvalError>)
    ensures
        outcome(res) == flatten_heads(tree@),
    decreases tree, 0int,
{
    match tree {
        AST::Cons { head, tail } => {
            let value = match eval_tree(*head) {
                Ok(value) => value,
                Err(e) => {
                    return Err(e);
                },
            };
            let rest = match eval_flatten_heads(*tail) {
                Ok(rest) => rest,
                Err(e) => {
                    return Err(e);
                },
            };
            Ok(AST::Cons { head: Box::new(value), tail: Box::new(rest) })
        },
        atom => Ok(atom),
    }
}

/// The sum of the numbers among the elements of a chain.
pub open spec fn total(list: Tree) -> int
    decreases list,
{
    match list {
        Tree::Cons { head, tail } => match *head {
            Tree::Num(n) => n + total(*tail),
            _ => total(*tail),
        },
        _ => 0,
    }
}

/// The product of the numbers among the elements of a chain.
pub open spec fn product(list: Tree) -> int
    decreases list,
{
    match list {
        Tree::Cons { head, tail } => match *head {
            Tree::Num(n) => n * product(*tail),
            _ => product(*tail),
        },
        _ => 1,
    }
}

/// Where the fold with addition gives a value, it is what the fold started
/// from plus the sum of the elements.
pub proof fn lemma_fold_with_addition(list: Tree, acc: int)
    ensures
        fold_numbers(list, acc, |a: int, b: int| a + b) matches Ok(sum) ==> sum == acc + total(list),
    decreases list,
{
    if let Tree::Cons { head, tail } = list {
        if let Tree::Num(n) = *head {
            lemma_fold_with_addition(*tail, acc + n);
        }
    }
}

/// Where the fold with multiplication gives a value, it is what the fold
/// started from times the product of the elements.
pub proof fn lemma_fold_with_multiplication(list: Tree, acc: int)
    ensures
        fold_numbers(list, acc, |a: int, b: int| a * b) matches Ok(result) ==> result == acc
            * product(list),
    decreases list,
{
    if let Tree::Cons { head, tail } = list {
        if let Tree::Num(n) = *head {
            lemma_fold_with_multiplication(*tail, acc * n);
            assert((acc * n) * product(*tail) == acc * (n * product(*tail))) by (nonlinear_arith);
        }
    }
}

/// Whether the expression `t` holds a call form: whether `t`, or an element
/// of `t` at any depth, is a list whose first element is a symbol.
pub open spec fn has_call_form(t: Tree) -> bool
    decreases t, 1int,
{
    match t {
        Tree::Cons { head, tail } => *head is Word || has_call_form(*head) || rest_has_call_form(
            *tail,
        ),
        _ => false,
    }
}

/// Whether an element of the rest of a list holds a call form.
pub open spec fn rest_has_call_form(rest: Tree) -> bool
    decreases rest, 0int,
{
    match rest {
        Tree::Cons { head, tail } => has_call_form(*head) || rest_has_call_form(*tail),
        _ => false,
    }
}

/// Whether no element of the chain `t` is a cons cell.
pub open spec fn elements_are_atoms(t: Tree) -> bool
    decreases t,
{
    match t {
        Tree::Cons { head, tail } => !(*head is Cons) && elements_are_atoms(*tail),
        _ => true,
    }
}

/// A number, a symbol or the empty list evaluates to itself.
pub proof fn lemma_atom_evaluates_to_itself(t: Tree)
    requires
        !has_call_form(t),
        !(t is Cons),
    ensures
        eval(t) == Ok::<Tree, EvalFailure>(t),
{
}

/// A list whose elements are numbers, symbols and empty lists keeps every
/// element when its elements are evaluated.
pub proof fn lemma_flatten_heads_keeps_atoms(t: Tree)
    requires
        elements_are_atoms(t),
    ensures
        flatten_heads(t) == Ok::<Tree, EvalFailure>(t),
    decreases t,
{
    if let Tree::Cons { head, tail } = t {
        lemma_atom_evaluates_to_itself(*head);
        lemma_flatten_heads_keeps_atoms(*tail);
    }
}

/// A list that holds no call form has no value: it is not a function.
pub proof fn lemma_list_without_call_form_fails(t: Tree)
    requires
        t is Cons,
        !has_call_form(t),
    ensures
        eval(t) == Err::<Tree, EvalFailure>(EvalFailure::NotAFunction),
    decreases t, 1int,
{
    lemma_elements_without_call_form(t);
}

/// Where no element of a chain holds a call form, evaluating the elements
/// keeps the chain as it is, or fails because an element is a list.
pub proof fn lemma_elements_without_call_form(t: Tree)
    requires
        !rest_has_call_form(t),
    ensures
        flatten_heads(t) == Ok::<Tree, EvalFailure>(t) || flatten_heads(t) == Err::<
            Tree,
            EvalFailure,
        >(EvalFailure::NotAFunction),
    decreases t, 0int,
{
    if let Tree::Cons { head, tail } = t {
        if *head is Cons {
            lemma_list_without_call_form_fails(*head);
        }
        lemma_elements_without_call_form(*tail);
    }
}

/// A fold over a well-formed list does not fail for the shape of the list.
pub proof fn lemma_fold_of_proper(list: Tree, acc: int, op: spec_fn(int, int) -> int)
    requires
        is_proper(list),
        list is Cons || list is Nil,
    ensures
        fold_numbers(list, acc, op) != Err::<int, EvalFailure>(EvalFailure::Malformed),
    decreases list,
{
    if let Tree::Cons { head, tail } = list {
        if let Tree::Num(n) = *head {
            lemma_fold_of_proper(*tail, op(acc, n), op);
        }
    }
}

/// Evaluation keeps lists well formed: the value of a tree in which every
/// list ends in the empty list is such a tree too, and the evaluation of such
/// a tree does not fail with `Malformed`.
pub proof fn lemma_eval_of_proper(t: Tree)
    requires
        is_proper(t),
    ensures
        eval(t) matches Ok(value) ==> is_proper(value),
        eval(t) != Err::<Tree, EvalFailure>(EvalFailure::Malformed),
    decreases t, 1int,
{
    reveal_with_fuel(is_proper, 3);
    lemma_flatten_heads_of_proper(t);
    if let Ok(Tree::Cons { head, tail }) = flatten_heads(t) {
        lemma_fold_of_proper(*tail, 0, |a: int, b: int| a + b);
        lemma_fold_of_proper(*tail, 1, |a: int, b: int| a * b);
    }
}

/// Evaluating the elements of a well-formed list gives a well-formed list,
/// which is empty where the list was, and does not fail with `Malformed`.
pub proof fn lemma_flatten_heads_of_proper(t: Tree)
    requires
        is_proper(t),
    ensures
        flatten_heads(t) matches Ok(flat) ==> {
            &&& is_proper(flat)
            &&& flat is Cons <==> t is Cons
            &&& flat is Nil <==> t is Nil
        },
        flatten_heads(t) != Err::<Tree, EvalFailure>(EvalFailure::Malformed),
    decreases t, 0int,
{
    if let Tree::Cons { head, tail } = t {
        lemma_eval_of_proper(*head);
        lemma_flatten_heads_of_proper(*tail);
    }
}

/// What is read from a text does not fail with `Malformed` when it is
/// evaluated, and its value holds well-formed lists only: a list that does not
/// end in the empty list can only be built by hand.
pub proof fn lemma_eval_of_parsed(s: Seq<char>)
    ensures
        parse_text(s) matches Ok(t) ==> {
            &&& eval(t) != Err::<Tree, EvalFailure>(EvalFailure::Malformed)
            &&& eval(t) matches Ok(value) ==> is_proper(value)
        },
{
    if let Ok(t) = parse_text(s) {
        lemma_expr_at_is_readable(s, 0);
        lemma_readable_is_proper(t);
        lemma_eval_of_proper(t);
    }
}

} // verus!
