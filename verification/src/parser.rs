//! The grammar of input lines, as a deterministic spec-level recogniser and
//! an executable recursive-descent parser proved equal to it.
//!
//! A command is `!` followed by `roll`, `set`, `print-env` or `help`; an
//! expression is a template call, a template, a left-associative additive
//! term over dice rolls, integers and `{name}` references.  The whole input
//! must be consumed: trailing text that matches no production rejects the
//! line.  A bareword may not begin with a digit, so `!set 1foo 2` is
//! rejected rather than read as a variable named `1foo`.
use crate::decimal::{is_digit_char, seq_val};
use crate::types::{Expression, ExprV, Op, StmtV};
use vstd::prelude::*;

verus! {

/// True of characters a bareword may contain: anything but delimiters,
/// operators-in-space, and whitespace.
pub open spec fn is_allowed_char(c: char) -> bool {
    c != ',' && c != '!' && c != '$' && c != ';' && c != '{' && c != '}' && c != '[' && c != ']'
        && c != '(' && c != ')' && c != '=' && c != '>' && c != ' ' && c != '\t' && c != '\r'
        && c != '\n'
}

/// True of the four whitespace characters the grammar skips.
pub open spec fn is_space_char(c: char) -> bool {
    c == ' ' || c == '\t' || c == '\r' || c == '\n'
}

/// The end of the whitespace run starting at `i`.
pub open spec fn p_space0(s: Seq<char>, i: int) -> int
    decreases s.len() - i,
{
    if 0 <= i < s.len() && is_space_char(s[i]) {
        p_space0(s, i + 1)
    } else {
        i
    }
}

/// The end of the whitespace run at `i`, which must be non-empty.
pub open spec fn p_space1(s: Seq<char>, i: int) -> Option<int> {
    if 0 <= i < s.len() && is_space_char(s[i]) {
        Some(p_space0(s, i))
    } else {
        None
    }
}

/// The end of the allowed-character run starting at `i`.
pub open spec fn word_end(s: Seq<char>, i: int) -> int
    decreases s.len() - i,
{
    if 0 <= i < s.len() && is_allowed_char(s[i]) {
        word_end(s, i + 1)
    } else {
        i
    }
}

/// A bareword: one or more allowed characters, the first not a digit.
pub open spec fn p_bareword(s: Seq<char>, i: int) -> Option<(int, Seq<char>)> {
    if 0 <= i < s.len() && is_allowed_char(s[i]) && !is_digit_char(s[i]) {
        Some((word_end(s, i), s.subrange(i, word_end(s, i))))
    } else {
        None
    }
}

/// The end of the digit run starting at `i`.
pub open spec fn digits_end(s: Seq<char>, i: int) -> int
    decreases s.len() - i,
{
    if 0 <= i < s.len() && is_digit_char(s[i]) {
        digits_end(s, i + 1)
    } else {
        i
    }
}

/// An integer literal: a non-empty digit run whose value fits a 64-bit
/// signed integer.
pub open spec fn p_integer(s: Seq<char>, i: int) -> Option<(int, int)> {
    if 0 <= i < s.len() && is_digit_char(s[i]) {
        let j = digits_end(s, i);
        let v = seq_val(s.subrange(i, j));
        if v <= i64::MAX {
            Some((j, v))
        } else {
            None
        }
    } else {
        None
    }
}

/// A brace-delimited variable reference.
pub open spec fn p_var_ref(s: Seq<char>, i: int) -> Option<(int, ExprV)> {
    if 0 <= i < s.len() && s[i] == '{' {
        match p_bareword(s, i + 1) {
            Some((j, name)) => if j < s.len() && s[j] == '}' {
                Some((j + 1, ExprV::Variable(name)))
            } else {
                None
            },
            None => None,
        }
    } else {
        None
    }
}

/// `+` or `-`.
pub open spec fn p_op(s: Seq<char>, i: int) -> Option<(int, Op)> {
    if 0 <= i < s.len() && s[i] == '+' {
        Some((i + 1, Op::Add))
    } else if 0 <= i < s.len() && s[i] == '-' {
        Some((i + 1, Op::Subtract))
    } else {
        None
    }
}

/// A dice-roll operand: a variable reference or an integer literal.
pub open spec fn p_dice_operand(s: Seq<char>, i: int) -> Option<(int, ExprV)> {
    match p_var_ref(s, i) {
        Some(r) => Some(r),
        None => match p_integer(s, i) {
            Some((j, v)) => Some((j, ExprV::Integer(v as i64))),
            None => None,
        },
    }
}

/// A dice roll `XdY`; an omitted count defaults to one die.
pub open spec fn p_dice(s: Seq<char>, i: int) -> Option<(int, ExprV)> {
    match p_dice_operand(s, i) {
        Some((j, count)) => if j < s.len() && s[j] == 'd' {
            match p_dice_operand(s, j + 1) {
                Some((k, sides)) => Some(
                    (k, ExprV::Dice { count: Box::new(count), sides: Box::new(sides) }),
                ),
                None => None,
            }
        } else {
            None
        },
        None => if 0 <= i < s.len() && s[i] == 'd' {
            match p_dice_operand(s, i + 1) {
                Some((k, sides)) => Some(
                    (
                        k,
                        ExprV::Dice {
                            count: Box::new(ExprV::Integer(1)),
                            sides: Box::new(sides),
                        },
                    ),
                ),
                None => None,
            }
        } else {
            None
        },
    }
}

/// A term operand: a dice roll, an integer, or a variable reference.
pub open spec fn p_subexpr(s: Seq<char>, i: int) -> Option<(int, ExprV)> {
    match p_dice(s, i) {
        Some(r) => Some(r),
        None => match p_integer(s, i) {
            Some((j, v)) => Some((j, ExprV::Integer(v as i64))),
            None => match p_var_ref(s, i) {
                Some(r) => Some(r),
                None => None,
            },
        },
    }
}

/// The left-associative tail of a term: zero or more `op operand` pairs,
/// each preceded and followed by whitespace, folded onto `acc`.
pub open spec fn p_term_rest(s: Seq<char>, i: int, acc: ExprV) -> (int, ExprV)
    decreases s.len() - i,
{
    match p_space1(s, i) {
        Some(j1) => match p_op(s, j1) {
            Some((j2, op)) => match p_space1(s, j2) {
                Some(j3) => match p_subexpr(s, j3) {
                    Some((j4, e2)) => if i < j4 && j4 <= s.len() {
                        p_term_rest(s, j4, ExprV::Term(Box::new(acc), Box::new(e2), op))
                    } else {
                        (i, acc)
                    },
                    None => (i, acc),
                },
                None => (i, acc),
            },
            None => (i, acc),
        },
        None => (i, acc),
    }
}

/// A term: an operand followed by its additive tail.
pub open spec fn p_term(s: Seq<char>, i: int) -> Option<(int, ExprV)> {
    match p_subexpr(s, i) {
        Some((j, e)) => Some(p_term_rest(s, j, e)),
        None => None,
    }
}

/// `(`, with surrounding whitespace skipped.
pub open spec fn p_lparen(s: Seq<char>, i: int) -> Option<int> {
    let j = p_space0(s, i);
    if j < s.len() && s[j] == '(' {
        Some(p_space0(s, j + 1))
    } else {
        None
    }
}

/// `)`, with surrounding whitespace skipped.
pub open spec fn p_rparen(s: Seq<char>, i: int) -> Option<int> {
    let j = p_space0(s, i);
    if j < s.len() && s[j] == ')' {
        Some(p_space0(s, j + 1))
    } else {
        None
    }
}

/// `,`, with surrounding whitespace skipped.
pub open spec fn p_comma(s: Seq<char>, i: int) -> Option<int> {
    let j = p_space0(s, i);
    if j < s.len() && s[j] == ',' {
        Some(p_space0(s, j + 1))
    } else {
        None
    }
}

/// The tail of a parameter list: zero or more `, name` pairs.
pub open spec fn p_namelist_rest(s: Seq<char>, i: int, acc: Seq<Seq<char>>) -> (int, Seq<
    Seq<char>,
>)
    decreases s.len() - i,
{
    match p_comma(s, i) {
        Some(j) => match p_bareword(s, j) {
            Some((k, name)) => if i < k && k <= s.len() {
                p_namelist_rest(s, k, acc.push(name))
            } else {
                (i, acc)
            },
            None => (i, acc),
        },
        None => (i, acc),
    }
}

/// A parenthesised, comma-separated, possibly empty parameter-name list.
pub open spec fn p_arglist(s: Seq<char>, i: int) -> Option<(int, Seq<Seq<char>>)> {
    match p_lparen(s, i) {
        Some(j) => {
            let after = match p_bareword(s, j) {
                Some((k, name)) => p_namelist_rest(s, k, seq![name]),
                None => (j, Seq::empty()),
            };
            match p_rparen(s, after.0) {
                Some(m) => Some((m, after.1)),
                None => None,
            }
        },
        None => None,
    }
}

/// A template literal: `( names ) => ( expression )`.
pub open spec fn p_template(s: Seq<char>, i: int) -> Option<(int, ExprV)>
    decreases s.len() - i, 0int,
{
    match p_arglist(s, i) {
        Some((j, names)) => if j + 1 < s.len() && s[j] == '=' && s[j + 1] == '>' {
            match p_lparen(s, j + 2) {
                Some(j3) => if i < j3 && j3 <= s.len() {
                    match p_expr(s, j3) {
                        Some((j4, body)) => match p_rparen(s, j4) {
                            Some(j5) => Some(
                                (j5, ExprV::Template { args: names, body: seq![body] }),
                            ),
                            None => None,
                        },
                        None => None,
                    }
                } else {
                    None
                },
                None => None,
            }
        } else {
            None
        },
        None => None,
    }
}

/// A template call: a template literal or variable reference applied, with
/// no space before the argument parenthesis, to one or more expressions.
pub open spec fn p_tcall(s: Seq<char>, i: int) -> Option<(int, ExprV)>
    decreases s.len() - i, 1int,
{
    let target = match p_template(s, i) {
        Some(r) => Some(r),
        None => p_var_ref(s, i),
    };
    match target {
        Some((j, t)) => if j < s.len() && s[j] == '(' && i < j + 1 {
            match p_exprlist(s, j + 1) {
                Some((k, args)) => if k < s.len() && s[k] == ')' {
                    Some((k + 1, ExprV::Call { target: Box::new(t), args }))
                } else {
                    None
                },
                None => None,
            }
        } else {
            None
        },
        None => None,
    }
}

/// The tail of a call-argument list: zero or more `, expression` pairs.
pub open spec fn p_exprlist_more(s: Seq<char>, i: int, acc: Seq<ExprV>) -> (int, Seq<ExprV>)
    decreases s.len() - i, 0int,
{
    match p_comma(s, i) {
        Some(k) => if i < k && k <= s.len() {
            match p_expr(s, k) {
                Some((m, e)) => if i < m && m <= s.len() {
                    p_exprlist_more(s, m, acc.push(e))
                } else {
                    (i, acc)
                },
                None => (i, acc),
            }
        } else {
            (i, acc)
        },
        None => (i, acc),
    }
}

/// A non-empty, comma-separated list of call arguments.
pub open spec fn p_exprlist(s: Seq<char>, i: int) -> Option<(int, Seq<ExprV>)>
    decreases s.len() - i, 3int,
{
    match p_expr(s, i) {
        Some((j, e)) => if i < j && j <= s.len() {
            Some(p_exprlist_more(s, j, seq![e]))
        } else {
            None
        },
        None => None,
    }
}

/// An expression: the first of template call, template, term, dice roll,
/// integer or variable reference to match.
pub open spec fn p_expr(s: Seq<char>, i: int) -> Option<(int, ExprV)>
    decreases s.len() - i, 2int,
{
    match p_tcall(s, i) {
        Some(r) => Some(r),
        None => match p_template(s, i) {
            Some(r) => Some(r),
            None => match p_term(s, i) {
                Some(r) => Some(r),
                None => match p_dice(s, i) {
                    Some(r) => Some(r),
                    None => match p_integer(s, i) {
                        Some((j, v)) => Some((j, ExprV::Integer(v as i64))),
                        None => p_var_ref(s, i),
                    },
                },
            },
        },
    }
}

/// Whitespace skipping stays within the input.
pub proof fn lemma_space0(s: Seq<char>, i: int)
    requires
        0 <= i <= s.len(),
    ensures
        i <= p_space0(s, i) <= s.len(),
    decreases s.len() - i,
{
    if i < s.len() && is_space_char(s[i]) {
        lemma_space0(s, i + 1);
    }
}

/// A word run stays within the input.
pub proof fn lemma_word_end(s: Seq<char>, i: int)
    requires
        0 <= i <= s.len(),
    ensures
        i <= word_end(s, i) <= s.len(),
        i < s.len() && is_allowed_char(s[i]) ==> i < word_end(s, i),
    decreases s.len() - i,
{
    if i < s.len() && is_allowed_char(s[i]) {
        lemma_word_end(s, i + 1);
    }
}

/// A digit run stays within the input.
pub proof fn lemma_digits_end(s: Seq<char>, i: int)
    requires
        0 <= i <= s.len(),
    ensures
        i <= digits_end(s, i) <= s.len(),
        i < s.len() && is_digit_char(s[i]) ==> i < digits_end(s, i),
    decreases s.len() - i,
{
    if i < s.len() && is_digit_char(s[i]) {
        lemma_digits_end(s, i + 1);
    }
}

/// Every atomic production consumes at least one character and stays within
/// the input.
pub proof fn lemma_atoms(s: Seq<char>, i: int)
    requires
        0 <= i <= s.len(),
    ensures
        p_space1(s, i) matches Some(j) ==> i < j <= s.len(),
        p_bareword(s, i) matches Some(r) ==> i < r.0 <= s.len(),
        p_integer(s, i) matches Some(r) ==> i < r.0 <= s.len(),
        p_var_ref(s, i) matches Some(r) ==> i < r.0 <= s.len(),
        p_op(s, i) matches Some(r) ==> i < r.0 <= s.len(),
        p_dice_operand(s, i) matches Some(r) ==> i < r.0 <= s.len(),
        p_lparen(s, i) matches Some(j) ==> i < j <= s.len(),
        p_rparen(s, i) matches Some(j) ==> i < j <= s.len(),
        p_comma(s, i) matches Some(j) ==> i < j <= s.len(),
{
    lemma_space0(s, i);
    lemma_word_end(s, i);
    lemma_digits_end(s, i);
    if i < s.len() {
        lemma_word_end(s, i + 1);
        lemma_digits_end(s, i + 1);
    }
    let j0 = p_space0(s, i);
    if j0 < s.len() {
        lemma_space0(s, j0 + 1);
    }
}

/// A dice roll consumes at least one character and stays within the input.
pub proof fn lemma_dice(s: Seq<char>, i: int)
    requires
        0 <= i <= s.len(),
    ensures
        p_dice(s, i) matches Some(r) ==> i < r.0 <= s.len(),
        p_subexpr(s, i) matches Some(r) ==> i < r.0 <= s.len(),
{
    lemma_atoms(s, i);
    match p_dice_operand(s, i) {
        Some((j, _)) => {
            if j < s.len() && s[j] == 'd' {
                lemma_atoms(s, j + 1);
            }
        },
        None => {
            if i < s.len() && s[i] == 'd' {
                lemma_atoms(s, i + 1);
            }
        },
    }
}

/// A term's tail never retreats and stays within the input.
pub proof fn lemma_term_rest(s: Seq<char>, i: int, acc: ExprV)
    requires
        0 <= i <= s.len(),
    ensures
        i <= p_term_rest(s, i, acc).0 <= s.len(),
    decreases s.len() - i,
{
    match p_space1(s, i) {
        Some(j1) => match p_op(s, j1) {
            Some((j2, op)) => match p_space1(s, j2) {
                Some(j3) => match p_subexpr(s, j3) {
                    Some((j4, e2)) => {
                        if i < j4 && j4 <= s.len() {
                            lemma_term_rest(s, j4, ExprV::Term(Box::new(acc), Box::new(e2), op));
                        }
                    },
                    None => {},
                },
                None => {},
            },
            None => {},
        },
        None => {},
    }
}

/// A term consumes at least one character and stays within the input.
pub proof fn lemma_term(s: Seq<char>, i: int)
    requires
        0 <= i <= s.len(),
    ensures
        p_term(s, i) matches Some(r) ==> i < r.0 <= s.len(),
{
    lemma_dice(s, i);
    match p_subexpr(s, i) {
        Some((j, e)) => {
            lemma_term_rest(s, j, e);
        },
        None => {},
    }
}

/// A name-list tail never retreats and stays within the input.
pub proof fn lemma_namelist_rest(s: Seq<char>, i: int, acc: Seq<Seq<char>>)
    requires
        0 <= i <= s.len(),
    ensures
        i <= p_namelist_rest(s, i, acc).0 <= s.len(),
    decreases s.len() - i,
{
    match p_comma(s, i) {
        Some(j) => match p_bareword(s, j) {
            Some((k, name)) => {
                if i < k && k <= s.len() {
                    lemma_namelist_rest(s, k, acc.push(name));
                }
            },
            None => {},
        },
        None => {},
    }
}

/// A parameter list consumes at least one character and stays within the
/// input.
pub proof fn lemma_arglist(s: Seq<char>, i: int)
    requires
        0 <= i <= s.len(),
    ensures
        p_arglist(s, i) matches Some(r) ==> i < r.0 <= s.len(),
{
    lemma_atoms(s, i);
    match p_lparen(s, i) {
        Some(j) => {
            let after = match p_bareword(s, j) {
                Some((k, name)) => p_namelist_rest(s, k, seq![name]),
                None => (j, Seq::<Seq<char>>::empty()),
            };
            match p_bareword(s, j) {
                Some((k, name)) => {
                    lemma_atoms(s, j);
                    lemma_namelist_rest(s, k, seq![name]);
                },
                None => {},
            }
            lemma_atoms(s, after.0);
        },
        None => {},
    }
}

/// A template consumes at least one character and stays within the input.
pub proof fn lemma_template(s: Seq<char>, i: int)
    requires
        0 <= i <= s.len(),
    ensures
        p_template(s, i) matches Some(r) ==> i < r.0 <= s.len(),
    decreases s.len() - i, 0int,
{
    lemma_arglist(s, i);
    match p_arglist(s, i) {
        Some((j, names)) => {
            if j + 1 < s.len() && s[j] == '=' && s[j + 1] == '>' {
                lemma_atoms(s, j + 2);
                match p_lparen(s, j + 2) {
                    Some(j3) => {
                        if i < j3 && j3 <= s.len() {
                            lemma_expr(s, j3);
                            match p_expr(s, j3) {
                                Some((j4, _)) => {
                                    lemma_atoms(s, j4);
                                },
                                None => {},
                            }
                        }
                    },
                    None => {},
                }
            }
        },
        None => {},
    }
}

/// A template call consumes at least one character and stays within the
/// input.
pub proof fn lemma_tcall(s: Seq<char>, i: int)
    requires
        0 <= i <= s.len(),
    ensures
        p_tcall(s, i) matches Some(r) ==> i < r.0 <= s.len(),
    decreases s.len() - i, 1int,
{
    lemma_template(s, i);
    lemma_atoms(s, i);
    let target = match p_template(s, i) {
        Some(r) => Some(r),
        None => p_var_ref(s, i),
    };
    match target {
        Some((j, _)) => {
            if j < s.len() && s[j] == '(' && i < j + 1 {
                lemma_exprlist(s, j + 1);
            }
        },
        None => {},
    }
}

/// An argument-list tail never retreats and stays within the input.
pub proof fn lemma_exprlist_more(s: Seq<char>, i: int, acc: Seq<ExprV>)
    requires
        0 <= i <= s.len(),
    ensures
        i <= p_exprlist_more(s, i, acc).0 <= s.len(),
    decreases s.len() - i, 0int,
{
    match p_comma(s, i) {
        Some(k) => {
            if i < k && k <= s.len() {
                match p_expr(s, k) {
                    Some((m, e)) => {
                        if i < m && m <= s.len() {
                            lemma_exprlist_more(s, m, acc.push(e));
                        }
                    },
                    None => {},
                }
            }
        },
        None => {},
    }
}

/// An argument list consumes at least one character and stays within the
/// input.
pub proof fn lemma_exprlist(s: Seq<char>, i: int)
    requires
        0 <= i <= s.len(),
    ensures
        p_exprlist(s, i) matches Some(r) ==> i < r.0 <= s.len(),
    decreases s.len() - i, 3int,
{
    lemma_expr(s, i);
    match p_expr(s, i) {
        Some((j, e)) => {
            if i < j && j <= s.len() {
                lemma_exprlist_more(s, j, seq![e]);
            }
        },
        None => {},
    }
}

/// An expression consumes at least one character and stays within the
/// input, and its sub-parses never step outside their guards.
pub proof fn lemma_expr(s: Seq<char>, i: int)
    requires
        0 <= i <= s.len(),
    ensures
        p_expr(s, i) matches Some(r) ==> i < r.0 <= s.len(),
    decreases s.len() - i, 2int,
{
    lemma_tcall(s, i);
    lemma_template(s, i);
    lemma_term(s, i);
    lemma_dice(s, i);
    lemma_atoms(s, i);
}

/// True when `s` holds `word` starting at `i`.
pub open spec fn has_tag(s: Seq<char>, i: int, word: Seq<char>) -> bool {
    0 <= i && i + word.len() <= s.len() && s.subrange(i, i + word.len()) == word
}

/// A statement body (after `!`): roll, set, print-env or help, in that
/// order of preference.
pub open spec fn p_statement(s: Seq<char>, i: int) -> Option<(int, StmtV)> {
    if has_tag(s, i, "roll"@) && p_space1(s, i + 4) is Some && p_expr(
        s,
        p_space1(s, i + 4).unwrap(),
    ) is Some {
        let (j, e) = p_expr(s, p_space1(s, i + 4).unwrap()).unwrap();
        Some((j, StmtV::Roll(e)))
    } else if has_tag(s, i, "set"@) && p_space1(s, i + 3) is Some && p_bareword(
        s,
        p_space1(s, i + 3).unwrap(),
    ) is Some {
        let (j, name) = p_bareword(s, p_space1(s, i + 3).unwrap()).unwrap();
        if p_space1(s, j) is Some && p_expr(s, p_space1(s, j).unwrap()) is Some {
            let (k, e) = p_expr(s, p_space1(s, j).unwrap()).unwrap();
            Some((k, StmtV::SetValue(name, e)))
        } else {
            None
        }
    } else if has_tag(s, i, "print-env"@) {
        Some((i + 9, StmtV::PrintEnv))
    } else if has_tag(s, i, "help"@) {
        Some((i + 4, StmtV::Help))
    } else {
        None
    }
}

/// One whole input line: `!`, a statement, and nothing after it.
pub open spec fn parse_stmt(s: Seq<char>) -> Option<StmtV> {
    if s.len() > 0 && s[0] == '!' {
        match p_statement(s, 1) {
            Some((j, st)) => if j == s.len() {
                Some(st)
            } else {
                None
            },
            None => None,
        }
    } else {
        None
    }
}

/// A parsed position-and-expression against its model.
pub open spec fn rel_expr(r: Option<(usize, Expression)>, m: Option<(int, ExprV)>) -> bool {
    match (r, m) {
        (Some(a), Some(b)) => a.0 as int == b.0 && a.1.view() == b.1,
        (None, None) => true,
        _ => false,
    }
}

/// A parsed position against its model.
pub open spec fn rel_pos(r: Option<usize>, m: Option<int>) -> bool {
    match (r, m) {
        (Some(a), Some(b)) => a as int == b,
        (None, None) => true,
        _ => false,
    }
}

fn space_c(c: char) -> (r: bool)
    ensures
        r == is_space_char(c),
{
    c == ' ' || c == '\t' || c == '\r' || c == '\n'
}

fn allowed_c(c: char) -> (r: bool)
    ensures
        r == is_allowed_char(c),
{
    c != ',' && c != '!' && c != '$' && c != ';' && c != '{' && c != '}' && c != '[' && c != ']'
        && c != '(' && c != ')' && c != '=' && c != '>' && c != ' ' && c != '\t' && c != '\r'
        && c != '\n'
}

fn digit_c(c: char) -> (r: bool)
    ensures
        r == is_digit_char(c),
{
    '0' <= c && c <= '9'
}

fn space0(s: &Vec<char>, i: usize) -> (j: usize)
    requires
        i <= s@.len(),
    ensures
        j as int == p_space0(s@, i as int),
        i <= j <= s@.len(),
{
    let mut j = i;
    while j < s.len() && space_c(s[j])
        invariant
            i <= j <= s@.len(),
            p_space0(s@, i as int) == p_space0(s@, j as int),
        decreases s@.len() - j,
    {
        j = j + 1;
    }
    j
}

fn space1(s: &Vec<char>, i: usize) -> (r: Option<usize>)
    requires
        i <= s@.len(),
    ensures
        rel_pos(r, p_space1(s@, i as int)),
        r matches Some(j) ==> i < j <= s@.len(),
{
    if i < s.len() && space_c(s[i]) {
        proof {
            lemma_atoms(s@, i as int);
        }
        Some(space0(s, i))
    } else {
        None
    }
}

/// Reads a bareword (see [`p_bareword`]).
pub fn variable(s: &Vec<char>, i: usize) -> (r: Option<(usize, String)>)
    requires
        i <= s@.len(),
    ensures
        match r {
            Some(p) => p_bareword(s@, i as int) matches Some(m) && p.0 as int == m.0 && p.1@
                == m.1 && i < p.0 <= s@.len(),
            None => p_bareword(s@, i as int) is None,
        },
{
    if i < s.len() && allowed_c(s[i]) && !digit_c(s[i]) {
        let mut j = i;
        let mut w: Vec<char> = Vec::new();
        while j < s.len() && allowed_c(s[j])
            invariant
                i <= j <= s@.len(),
                word_end(s@, i as int) == word_end(s@, j as int),
                w@ =~= s@.subrange(i as int, j as int),
            decreases s@.len() - j,
        {
            w.push(s[j]);
            proof {
                assert(s@.subrange(i as int, j + 1 as int) =~= s@.subrange(
                    i as int,
                    j as int,
                ).push(s@[j as int]));
            }
            j = j + 1;
        }
        proof {
            lemma_atoms(s@, i as int);
        }
        Some((j, crate::text::string_from_chars(&w)))
    } else {
        None
    }
}

/// Reads an integer literal (see [`p_integer`]).
pub fn integer(s: &Vec<char>, i: usize) -> (r: Option<(usize, i64)>)
    requires
        i <= s@.len(),
    ensures
        match r {
            Some(p) => p_integer(s@, i as int) matches Some(m) && p.0 as int == m.0 && p.1 as int
                == m.1 && i < p.0 <= s@.len(),
            None => p_integer(s@, i as int) is None,
        },
{
    if i < s.len() && digit_c(s[i]) {
        let mut j = i;
        let mut acc: i64 = 0;
        let mut over = false;
        while j < s.len() && digit_c(s[j])
            invariant
                i <= j <= s@.len(),
                digits_end(s@, i as int) == digits_end(s@, j as int),
                forall|k: int| i <= k < j ==> is_digit_char(#[trigger] s@[k]),
                0 <= acc,
                !over ==> acc as int == seq_val(s@.subrange(i as int, j as int)),
                over ==> seq_val(s@.subrange(i as int, j as int)) > i64::MAX,
            decreases s@.len() - j,
        {
            let d = (s[j] as u32 - 48) as i64;
            proof {
                assert(d == crate::decimal::digit_val(s@[j as int]));
                assert(0 <= d <= 9);
                assert(s@.subrange(i as int, j + 1 as int).drop_last() =~= s@.subrange(
                    i as int,
                    j as int,
                ));
                assert(s@.subrange(i as int, j + 1 as int).last() == s@[j as int]);
            }
            if !over && acc <= (i64::MAX - d) / 10 {
                acc = acc * 10 + d;
            } else {
                proof {
                    crate::decimal::lemma_seq_val_nonneg(s@.subrange(i as int, j as int));
                }
                over = true;
            }
            j = j + 1;
        }
        proof {
            lemma_atoms(s@, i as int);
        }
        if over {
            proof {
                let full = s@.subrange(i as int, digits_end(s@, i as int));
                assert(full =~= s@.subrange(i as int, j as int));
            }
            None
        } else {
            proof {
                let full = s@.subrange(i as int, digits_end(s@, i as int));
                assert(full =~= s@.subrange(i as int, j as int));
            }
            Some((j, acc))
        }
    } else {
        None
    }
}

/// Reads a `{name}` variable reference (see [`p_var_ref`]).
pub fn variable_ref(s: &Vec<char>, i: usize) -> (r: Option<(usize, Expression)>)
    requires
        i <= s@.len(),
    ensures
        rel_expr(r, p_var_ref(s@, i as int)),
        r matches Some(p) ==> i < p.0 <= s@.len(),
{
    if i < s.len() && s[i] == '{' {
        match variable(s, i + 1) {
            Some((j, name)) => {
                if j < s.len() && s[j] == '}' {
                    Some((j + 1, Expression::Variable(name)))
                } else {
                    None
                }
            },
            None => None,
        }
    } else {
        None
    }
}

fn operation(s: &Vec<char>, i: usize) -> (r: Option<(usize, Op)>)
    requires
        i <= s@.len(),
    ensures
        match r {
            Some(p) => p_op(s@, i as int) == Some((p.0 as int, p.1)) && i < p.0 <= s@.len(),
            None => p_op(s@, i as int) is None,
        },
{
    if i < s.len() && s[i] == '+' {
        Some((i + 1, Op::Add))
    } else if i < s.len() && s[i] == '-' {
        Some((i + 1, Op::Subtract))
    } else {
        None
    }
}

fn dice_operand(s: &Vec<char>, i: usize) -> (r: Option<(usize, Expression)>)
    requires
        i <= s@.len(),
    ensures
        rel_expr(r, p_dice_operand(s@, i as int)),
        r matches Some(p) ==> i < p.0 <= s@.len(),
{
    match variable_ref(s, i) {
        Some(p) => Some(p),
        None => match integer(s, i) {
            Some((j, v)) => Some((j, Expression::Integer(v))),
            None => None,
        },
    }
}

/// Reads a dice roll (see [`p_dice`]).
pub fn dice_roll(s: &Vec<char>, i: usize) -> (r: Option<(usize, Expression)>)
    requires
        i <= s@.len(),
    ensures
        rel_expr(r, p_dice(s@, i as int)),
        r matches Some(p) ==> i < p.0 <= s@.len(),
{
    match dice_operand(s, i) {
        Some((j, count)) => {
            if j < s.len() && s[j] == 'd' {
                match dice_operand(s, j + 1) {
                    Some((k, sides)) => {
                        let ghost cv = count.view();
                        let ghost sv = sides.view();
                        let e = Expression::DiceRoll {
                            count: Box::new(count),
                            sides: Box::new(sides),
                        };
                        proof {
                            assert(e.view() == ExprV::Dice {
                                count: Box::new(cv),
                                sides: Box::new(sv),
                            });
                        }
                        Some((k, e))
                    },
                    None => None,
                }
            } else {
                None
            }
        },
        None => {
            if i < s.len() && s[i] == 'd' {
                match dice_operand(s, i + 1) {
                    Some((k, sides)) => {
                        let ghost sv = sides.view();
                        let e = Expression::DiceRoll {
                            count: Box::new(Expression::Integer(1)),
                            sides: Box::new(sides),
                        };
                        proof {
                            assert(Expression::Integer(1).view() == ExprV::Integer(1));
                            assert(e.view() == ExprV::Dice {
                                count: Box::new(ExprV::Integer(1)),
                                sides: Box::new(sv),
                            });
                        }
                        Some((k, e))
                    },
                    None => None,
                }
            } else {
                None
            }
        },
    }
}

/// Reads a term operand (see [`p_subexpr`]).
pub fn sub_expression(s: &Vec<char>, i: usize) -> (r: Option<(usize, Expression)>)
    requires
        i <= s@.len(),
    ensures
        rel_expr(r, p_subexpr(s@, i as int)),
        r matches Some(p) ==> i < p.0 <= s@.len(),
{
    match dice_roll(s, i) {
        Some(p) => Some(p),
        None => match integer(s, i) {
            Some((j, v)) => Some((j, Expression::Integer(v))),
            None => match variable_ref(s, i) {
                Some(p) => Some(p),
                None => None,
            },
        },
    }
}

/// Reads a left-associative additive term (see [`p_term`]).
pub fn term(s: &Vec<char>, i: usize) -> (r: Option<(usize, Expression)>)
    requires
        i <= s@.len(),
    ensures
        rel_expr(r, p_term(s@, i as int)),
        r matches Some(p) ==> i < p.0 <= s@.len(),
{
    match sub_expression(s, i) {
        Some((j0, e0)) => {
            let mut cur = j0;
            let mut acc = e0;
            loop
                invariant
                    i < cur <= s@.len(),
                    p_term(s@, i as int) == Some(p_term_rest(s@, cur as int, acc.view())),
                ensures
                    i < cur <= s@.len(),
                    p_term(s@, i as int) == Some((cur as int, acc.view())),
                decreases s@.len() - cur,
            {
                let ghost cur0 = cur as int;
                let ghost accv = acc.view();
                let step = match space1(s, cur) {
                    Some(j1) => match operation(s, j1) {
                        Some((j2, op)) => match space1(s, j2) {
                            Some(j3) => match sub_expression(s, j3) {
                                Some((j4, e2)) => Some((j4, e2, op)),
                                None => None,
                            },
                            None => None,
                        },
                        None => None,
                    },
                    None => None,
                };
                match step {
                    Some((j4, e2, op)) => {
                        acc = Expression::Term(Box::new(acc), Box::new(e2), op);
                        proof {
                            assert(p_term_rest(s@, cur0, accv) == p_term_rest(
                                s@,
                                j4 as int,
                                acc.view(),
                            ));
                        }
                        cur = j4;
                    },
                    None => {
                        proof {
                            assert(p_term_rest(s@, cur0, accv) == (cur0, accv));
                        }
                        break ;
                    },
                }
            }
            Some((cur, acc))
        },
        None => None,
    }
}

fn lparen(s: &Vec<char>, i: usize) -> (r: Option<usize>)
    requires
        i <= s@.len(),
    ensures
        rel_pos(r, p_lparen(s@, i as int)),
        r matches Some(j) ==> i < j <= s@.len(),
{
    let j = space0(s, i);
    if j < s.len() && s[j] == '(' {
        proof {
            lemma_atoms(s@, i as int);
        }
        Some(space0(s, j + 1))
    } else {
        None
    }
}

fn rparen(s: &Vec<char>, i: usize) -> (r: Option<usize>)
    requires
        i <= s@.len(),
    ensures
        rel_pos(r, p_rparen(s@, i as int)),
        r matches Some(j) ==> i < j <= s@.len(),
{
    let j = space0(s, i);
    if j < s.len() && s[j] == ')' {
        proof {
            lemma_atoms(s@, i as int);
        }
        Some(space0(s, j + 1))
    } else {
        None
    }
}

fn sep_comma(s: &Vec<char>, i: usize) -> (r: Option<usize>)
    requires
        i <= s@.len(),
    ensures
        rel_pos(r, p_comma(s@, i as int)),
        r matches Some(j) ==> i < j <= s@.len(),
{
    let j = space0(s, i);
    if j < s.len() && s[j] == ',' {
        proof {
            lemma_atoms(s@, i as int);
        }
        Some(space0(s, j + 1))
    } else {
        None
    }
}

/// Reads a parenthesised parameter-name list (see [`p_arglist`]).
pub fn arg_list(s: &Vec<char>, i: usize) -> (r: Option<(usize, Vec<String>)>)
    requires
        i <= s@.len(),
    ensures
        match r {
            Some(p) => p_arglist(s@, i as int) matches Some(m) && p.0 as int == m.0
                && p.1@.map_values(|t: String| t@) == m.1 && i < p.0 <= s@.len(),
            None => p_arglist(s@, i as int) is None,
        },
{
    match lparen(s, i) {
        Some(j) => {
            let mut names: Vec<String> = Vec::new();
            let mut cur = j;
            match variable(s, j) {
                Some((k, first)) => {
                    let ghost firstv = first@;
                    names.push(first);
                    cur = k;
                    proof {
                        assert(names@.map_values(|t: String| t@) =~= seq![firstv]);
                    }
                    let ghost base = p_namelist_rest(s@, k as int, names@.map_values(|t: String| t@));
                    loop
                        invariant
                            i < cur <= s@.len(),
                            base == p_namelist_rest(
                                s@,
                                cur as int,
                                names@.map_values(|t: String| t@),
                            ),
                        ensures
                            i < cur <= s@.len(),
                            base == (cur as int, names@.map_values(|t: String| t@)),
                        decreases s@.len() - cur,
                    {
                        let ghost cur0 = cur as int;
                        let ghost namesv = names@.map_values(|t: String| t@);
                        let step = match sep_comma(s, cur) {
                            Some(m) => variable(s, m),
                            None => None,
                        };
                        match step {
                            Some((m2, name)) => {
                                let ghost namev = name@;
                                names.push(name);
                                proof {
                                    assert(names@.map_values(|t: String| t@) =~= namesv.push(
                                        namev,
                                    ));
                                    assert(p_namelist_rest(s@, cur0, namesv) == p_namelist_rest(
                                        s@,
                                        m2 as int,
                                        namesv.push(name@),
                                    ));
                                }
                                cur = m2;
                            },
                            None => {
                                proof {
                                    assert(p_namelist_rest(s@, cur0, namesv) == (cur0, namesv));
                                }
                                break ;
                            },
                        }
                    }
                },
                None => {
                    proof {
                        assert(names@.map_values(|t: String| t@) =~= Seq::<Seq<char>>::empty());
                    }
                },
            }
            match rparen(s, cur) {
                Some(m) => Some((m, names)),
                None => None,
            }
        },
        None => None,
    }
}

/// Reads a template literal (see [`p_template`]).
pub fn dice_roll_template(s: &Vec<char>, i: usize) -> (r: Option<(usize, Expression)>)
    requires
        i <= s@.len(),
    ensures
        rel_expr(r, p_template(s@, i as int)),
        r matches Some(p) ==> i < p.0 <= s@.len(),
    decreases s@.len() - i, 0int,
{
    match arg_list(s, i) {
        Some((j, names)) => {
            if j < s.len() && j + 1 < s.len() && s[j] == '=' && s[j + 1] == '>' {
                match lparen(s, j + 2) {
                    Some(j3) => {
                        match expression(s, j3) {
                            Some((j4, body)) => {
                                match rparen(s, j4) {
                                    Some(j5) => {
                                        let mut exprs: Vec<Expression> = Vec::new();
                                        exprs.push(body);
                                        let e = Expression::DiceRollTemplate {
                                            args: names,
                                            expressions: exprs,
                                        };
                                        proof {
                                            crate::types::lemma_view_seq(exprs@);
                                            assert(crate::types::view_seq(exprs@) =~= seq![
                                                exprs@[0].view(),
                                            ]);
                                        }
                                        Some((j5, e))
                                    },
                                    None => None,
                                }
                            },
                            None => None,
                        }
                    },
                    None => None,
                }
            } else {
                None
            }
        },
        None => None,
    }
}

/// Reads a template call (see [`p_tcall`]).
pub fn dice_roll_template_call(s: &Vec<char>, i: usize) -> (r: Option<(usize, Expression)>)
    requires
        i <= s@.len(),
    ensures
        rel_expr(r, p_tcall(s@, i as int)),
        r matches Some(p) ==> i < p.0 <= s@.len(),
    decreases s@.len() - i, 1int,
{
    let target = match dice_roll_template(s, i) {
        Some(p) => Some(p),
        None => variable_ref(s, i),
    };
    match target {
        Some((j, t)) => {
            if j < s.len() && s[j] == '(' {
                match expression_list(s, j + 1) {
                    Some((k, args)) => {
                        if k < s.len() && s[k] == ')' {
                            Some(
                                (
                                    k + 1,
                                    Expression::DiceRollTemplateCall {
                                        template_expression: Box::new(t),
                                        args,
                                    },
                                ),
                            )
                        } else {
                            None
                        }
                    },
                    None => None,
                }
            } else {
                None
            }
        },
        None => None,
    }
}

/// Reads a non-empty call-argument list (see [`p_exprlist`]).
pub fn expression_list(s: &Vec<char>, i: usize) -> (r: Option<(usize, Vec<Expression>)>)
    requires
        i <= s@.len(),
    ensures
        match r {
            Some(p) => p_exprlist(s@, i as int) matches Some(m) && p.0 as int == m.0
                && crate::types::view_seq(p.1@) == m.1 && i < p.0 <= s@.len(),
            None => p_exprlist(s@, i as int) is None,
        },
    decreases s@.len() - i, 3int,
{
    match expression(s, i) {
        Some((j, e)) => {
            let mut args: Vec<Expression> = Vec::new();
            args.push(e);
            let mut cur = j;
            proof {
                crate::types::lemma_view_seq(args@);
                assert(crate::types::view_seq(args@) =~= seq![args@[0].view()]);
            }
            let ghost base = p_exprlist_more(s@, j as int, crate::types::view_seq(args@));
            loop
                invariant
                    i < cur <= s@.len(),
                    base == p_exprlist_more(s@, cur as int, crate::types::view_seq(args@)),
                ensures
                    i < cur <= s@.len(),
                    base == (cur as int, crate::types::view_seq(args@)),
                decreases s@.len() - cur,
            {
                let ghost cur0 = cur as int;
                let ghost argsv = crate::types::view_seq(args@);
                let step = match sep_comma(s, cur) {
                    Some(k) => expression(s, k),
                    None => None,
                };
                match step {
                    Some((m, e2)) => {
                        let ghost pre_args = args@;
                        let ghost e2v = e2.view();
                        args.push(e2);
                        proof {
                            assert(args@.drop_last() =~= pre_args);
                            assert(args@.last().view() == e2v);
                            assert(crate::types::view_seq(args@) == crate::types::view_seq(
                                args@.drop_last(),
                            ).push(args@.last().view()));
                            assert(crate::types::view_seq(args@) == argsv.push(e2v));
                            assert(p_exprlist_more(s@, cur0, argsv) == p_exprlist_more(
                                s@,
                                m as int,
                                argsv.push(e2v),
                            ));
                        }
                        cur = m;
                    },
                    None => {
                        proof {
                            assert(p_exprlist_more(s@, cur0, argsv) == (cur0, argsv));
                        }
                        break ;
                    },
                }
            }
            Some((cur, args))
        },
        None => None,
    }
}

/// Reads an expression (see [`p_expr`]).
pub fn expression(s: &Vec<char>, i: usize) -> (r: Option<(usize, Expression)>)
    requires
        i <= s@.len(),
    ensures
        rel_expr(r, p_expr(s@, i as int)),
        r matches Some(p) ==> i < p.0 <= s@.len(),
    decreases s@.len() - i, 2int,
{
    match dice_roll_template_call(s, i) {
        Some(p) => Some(p),
        None => match dice_roll_template(s, i) {
            Some(p) => Some(p),
            None => match term(s, i) {
                Some(p) => Some(p),
                None => match dice_roll(s, i) {
                    Some(p) => Some(p),
                    None => match integer(s, i) {
                        Some((j, v)) => Some((j, Expression::Integer(v))),
                        None => match variable_ref(s, i) {
                            Some(p) => Some(p),
                            None => None,
                        },
                    },
                },
            },
        },
    }
}

#[verifier::loop_isolation(false)]
fn tag_at(s: &Vec<char>, i: usize, t: &str) -> (r: bool)
    requires
        i <= s@.len(),
    ensures
        r == has_tag(s@, i as int, t@),
{
    let tc = crate::text::chars_of(t);
    let n = tc.len();
    if n > s.len() - i {
        return false;
    }
    let mut k: usize = 0;
    while k < n
        invariant
            k <= n,
            n == t@.len(),
            i + n <= s@.len(),
            tc@ == t@,
            forall|m: int| 0 <= m < k ==> s@[i + m] == t@[m],
        decreases n - k,
    {
        if s[i + k] != tc[k] {
            proof {
                if has_tag(s@, i as int, t@) {
                    assert(s@.subrange(i as int, i + n)[k as int] == t@[k as int]);
                }
            }
            return false;
        }
        k = k + 1;
    }
    proof {
        assert(s@.subrange(i as int, i + n as int) =~= t@);
    }
    true
}

/// Reads a statement body, the part after `!` (see [`p_statement`]).
#[verifier::rlimit(100)]
pub fn statement(s: &Vec<char>, i: usize) -> (r: Option<(usize, crate::types::Statement)>)
    requires
        i <= s@.len(),
    ensures
        match r {
            Some(p) => p_statement(s@, i as int) matches Some(m) && p.0 as int == m.0
                && p.1.view() == m.1,
            None => p_statement(s@, i as int) is None,
        },
{
    proof {
        reveal_strlit("roll");
        reveal_strlit("set");
        reveal_strlit("print-env");
        reveal_strlit("help");
    }
    let slen = s.len();
    if tag_at(s, i, "roll") {
        match space1(s, i + 4) {
            Some(j) => {
                match expression(s, j) {
                    Some((k, e)) => {
                        return Some((k, crate::types::Statement::Roll(Box::new(e))));
                    },
                    None => {},
                }
            },
            None => {},
        }
    }
    if tag_at(s, i, "set") {
        match space1(s, i + 3) {
            Some(j0) => {
                match variable(s, j0) {
                    Some((j, name)) => {
                        match space1(s, j) {
                            Some(j2) => {
                                match expression(s, j2) {
                                    Some((k, e)) => {
                                        return Some(
                                            (
                                                k,
                                                crate::types::Statement::SetValue(
                                                    name,
                                                    Box::new(e),
                                                ),
                                            ),
                                        );
                                    },
                                    None => { return None },
                                }
                            },
                            None => { return None },
                        }
                    },
                    None => {},
                }
            },
            None => {},
        }
    }
    if tag_at(s, i, "print-env") {
        return Some((i + 9, crate::types::Statement::PrintEnv));
    }
    if tag_at(s, i, "help") {
        return Some((i + 4, crate::types::Statement::Help));
    }
    None
}

/// The reader of one input line.  It recognises `!`-prefixed commands and
/// nothing else, and requires the whole line to parse.
#[derive(Default)]
pub struct StatementParser;

impl StatementParser {
    /// Parses one input line, exactly when the line matches the grammar
    /// (`parse_stmt`) in full.
    pub fn parse(&self, input: &str) -> (r: Result<crate::types::Statement, ()>)
        ensures
            match r {
                Ok(st) => parse_stmt(input@) == Some(st.view()),
                Err(_) => parse_stmt(input@) is None,
            },
    {
        let chars = crate::text::chars_of(input);
        if chars.len() == 0 {
            return Err(());
        }
        if chars[0] != '!' {
            return Err(());
        }
        match statement(&chars, 1) {
            Some((j, st)) => {
                if j == chars.len() {
                    Ok(st)
                } else {
                    Err(())
                }
            },
            None => Err(()),
        }
    }
}

impl crate::types::Parser<()> for StatementParser {
    fn parse(&self, input: &str) -> Result<crate::types::Statement, ()> {
        self.parse(input)
    }
}

} // verus!
