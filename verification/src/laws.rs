//! The crate's cross-cutting guarantees, each stated and proved over the
//! models that the executable functions' contracts are written in.
use crate::decimal::{dec_digits, dec_str, digit_val, is_digit_char, lemma_dec_digits, seq_val};
use crate::error::ErrV;
use crate::eval::{min_eval, min_eval_stmt, MAX_CALL_DEPTH};
use crate::parser::{
    digits_end, has_tag, p_arglist, p_bareword, p_dice, p_dice_operand, p_expr, p_integer,
    p_lparen, p_space0, p_space1, p_statement, p_subexpr, p_tcall, p_template, p_term,
    p_term_rest, p_var_ref, parse_stmt, word_end,
};
use crate::repl::user_key_of;
use crate::types::{scope_of, ExprV, StmtV};
use vstd::prelude::*;

verus! {

/// A digit run that reaches the end of the input is scanned to the end.
proof fn lemma_digits_end_all(s: Seq<char>, i: int)
    requires
        0 <= i <= s.len(),
        forall|k: int| i <= k < s.len() ==> is_digit_char(#[trigger] s[k]),
    ensures
        digits_end(s, i) == s.len(),
    decreases s.len() - i,
{
    if i < s.len() {
        lemma_digits_end_all(s, i + 1);
    }
}

/// Rolling a parsed non-negative integer answers its own decimal text: for
/// every `n` up to `2^62`, the line `!roll <n>` parses to exactly
/// `Roll(Integer(n))` and evaluates, under any bindings, to the decimal
/// rendering of `n`.
pub proof fn lemma_roll_integer_round_trip(
    n: int,
    scopes: Map<Seq<char>, Map<Seq<char>, ExprV>>,
    key: Seq<char>,
)
    requires
        0 <= n <= 0x4000000000000000,
    ensures
        parse_stmt("!roll "@ + dec_digits(n)) == Some(StmtV::Roll(ExprV::Integer(n as i64))),
        min_eval_stmt(
            StmtV::Roll(ExprV::Integer(n as i64)),
            scope_of(scopes, key),
            MAX_CALL_DEPTH as nat,
        ).0 == Ok::<Seq<char>, ErrV>(dec_str(n)),
{
    reveal_strlit("!roll ");
    reveal_strlit("roll");
    reveal_strlit("set");
    reveal_strlit("print-env");
    reveal_strlit("help");
    lemma_dec_digits(n);
    let d = dec_digits(n);
    let s = "!roll "@ + d;
    assert(s.len() == 6 + d.len());
    assert(s[0] == '!');
    assert(s[1] == 'r' && s[2] == 'o' && s[3] == 'l' && s[4] == 'l' && s[5] == ' ');
    assert(forall|k: int| 6 <= k < s.len() ==> is_digit_char(#[trigger] s[k]));
    assert(has_tag(s, 1, "roll"@)) by {
        assert(s.subrange(1, 5) =~= "roll"@);
    }
    // The space after the keyword ends at the first digit.
    assert(is_digit_char(s[6]) && !crate::parser::is_space_char(s[6]));
    assert(p_space0(s, 6) == 6);
    assert(p_space0(s, 5) == 6);
    assert(p_space1(s, 5) == Some(6int));
    // No parenthesis or brace begins at the digits, so only the integer
    // production can match.
    assert(p_lparen(s, 6) is None);
    assert(p_arglist(s, 6) is None);
    assert(p_template(s, 6) is None);
    assert(p_var_ref(s, 6) is None);
    assert(p_tcall(s, 6) is None);
    lemma_digits_end_all(s, 6);
    assert(s.subrange(6, s.len() as int) =~= d);
    assert(p_integer(s, 6) == Some((s.len() as int, n)));
    assert(p_dice_operand(s, 6) == Some((s.len() as int, ExprV::Integer(n as i64))));
    assert(p_dice(s, 6) is None);
    assert(p_subexpr(s, 6) == Some((s.len() as int, ExprV::Integer(n as i64))));
    assert(p_space1(s, s.len() as int) is None);
    assert(p_term_rest(s, s.len() as int, ExprV::Integer(n as i64)) == (
        s.len() as int,
        ExprV::Integer(n as i64),
    ));
    assert(p_term(s, 6) == Some((s.len() as int, ExprV::Integer(n as i64))));
    assert(p_expr(s, 6) == Some((s.len() as int, ExprV::Integer(n as i64))));
    assert(p_statement(s, 1) == Some((s.len() as int, StmtV::Roll(ExprV::Integer(n as i64)))));
    assert(parse_stmt(s) == Some(StmtV::Roll(ExprV::Integer(n as i64))));
    assert(min_eval(
        ExprV::Integer(n as i64),
        scope_of(scopes, key),
        MAX_CALL_DEPTH as nat,
    ) == Ok::<ExprV, ErrV>(ExprV::Integer(n as i64)));
}

/// With every die at its minimum, `x` dice with `y` sides sum to `x`, for
/// every count, size, bindings and fuel.
pub proof fn lemma_deterministic_dice(
    x: i64,
    y: i64,
    env: Map<Seq<char>, ExprV>,
    fuel: nat,
)
    requires
        0 <= x,
        1 <= y,
        x <= usize::MAX,
    ensures
        min_eval(
            ExprV::Dice { count: Box::new(ExprV::Integer(x)), sides: Box::new(ExprV::Integer(y)) },
            env,
            fuel,
        ) == Ok::<ExprV, ErrV>(ExprV::Integer(x)),
{
    assert(min_eval(ExprV::Integer(y), env, fuel) == Ok::<ExprV, ErrV>(ExprV::Integer(y)));
    assert(min_eval(ExprV::Integer(x), env, fuel) == Ok::<ExprV, ErrV>(ExprV::Integer(x)));
    assert(crate::eval::min_finish_dice(ExprV::Integer(x), ExprV::Integer(y)) == Ok::<
        ExprV,
        ErrV,
    >(ExprV::Integer(x)));
}

/// Read-your-writes: for any in-memory bindings and any context key,
/// `!set foo 5` answers successfully and a following `!roll {foo}` answers
/// exactly `5`.
pub proof fn lemma_read_your_writes(scopes: Map<Seq<char>, Map<Seq<char>, ExprV>>, key: Seq<char>)
    ensures
        parse_stmt("!set foo 5"@) == Some(StmtV::SetValue("foo"@, ExprV::Integer(5))),
        parse_stmt("!roll {foo}"@) == Some(StmtV::Roll(ExprV::Variable("foo"@))),
        ({
            let out1 = min_eval_stmt(
                StmtV::SetValue("foo"@, ExprV::Integer(5)),
                scope_of(scopes, key),
                MAX_CALL_DEPTH as nat,
            );
            let scopes1 = scopes.insert(key, out1.1);
            let out2 = min_eval_stmt(
                StmtV::Roll(ExprV::Variable("foo"@)),
                scope_of(scopes1, key),
                MAX_CALL_DEPTH as nat,
            );
            out1.0 is Ok && out2.0 == Ok::<Seq<char>, ErrV>("5"@)
        }),
{
    lemma_parse_set_foo_5();
    lemma_parse_roll_foo();
    let env0 = scope_of(scopes, key);
    let out1 = min_eval_stmt(
        StmtV::SetValue("foo"@, ExprV::Integer(5)),
        env0,
        MAX_CALL_DEPTH as nat,
    );
    assert(min_eval(ExprV::Integer(5), env0, MAX_CALL_DEPTH as nat) == Ok::<ExprV, ErrV>(
        ExprV::Integer(5),
    ));
    assert(out1.1 == env0.insert("foo"@, ExprV::Integer(5)));
    let scopes1 = scopes.insert(key, out1.1);
    assert(scope_of(scopes1, key) == out1.1);
    let env1 = out1.1;
    assert(env1.contains_key("foo"@) && env1["foo"@] == ExprV::Integer(5));
    assert(min_eval(
        ExprV::Variable("foo"@),
        env1,
        MAX_CALL_DEPTH as nat,
    ) == Ok::<ExprV, ErrV>(ExprV::Integer(5)));
    reveal_strlit("5");
    assert(dec_str(5) =~= "5"@) by {
        assert(dec_digits(5) =~= seq![crate::decimal::digit_char(5)]);
        assert(crate::decimal::digit_char(5) == '5');
    }
}

/// `!set foo 5` parses to exactly `SetValue("foo", Integer(5))`.
proof fn lemma_parse_set_foo_5()
    ensures
        parse_stmt("!set foo 5"@) == Some(StmtV::SetValue("foo"@, ExprV::Integer(5))),
{
    reveal_strlit("!set foo 5");
    reveal_strlit("roll");
    reveal_strlit("set");
    reveal_strlit("foo");
    let s = "!set foo 5"@;
    assert(s.len() == 10);
    assert(s[0] == '!' && s[1] == 's' && s[2] == 'e' && s[3] == 't' && s[4] == ' ' && s[5] == 'f'
        && s[6] == 'o' && s[7] == 'o' && s[8] == ' ' && s[9] == '5');
    assert(!has_tag(s, 1, "roll"@)) by {
        if has_tag(s, 1, "roll"@) {
            assert(s.subrange(1, 5)[0] == "roll"@[0]);
        }
    }
    assert(has_tag(s, 1, "set"@)) by {
        assert(s.subrange(1, 4) =~= "set"@);
    }
    assert(p_space0(s, 5) == 5);
    assert(p_space0(s, 4) == 5);
    assert(p_space1(s, 4) == Some(5int));
    assert(word_end(s, 8) == 8);
    assert(word_end(s, 7) == 8);
    assert(word_end(s, 6) == 8);
    assert(word_end(s, 5) == 8);
    assert(p_bareword(s, 5) == Some((8int, s.subrange(5, 8))));
    assert(s.subrange(5, 8) =~= "foo"@);
    assert(p_space0(s, 9) == 9);
    assert(p_space0(s, 8) == 9);
    assert(p_space1(s, 8) == Some(9int));
    lemma_parse_just_integer_5(s, 9);
    assert(p_statement(s, 1) == Some((10int, StmtV::SetValue("foo"@, ExprV::Integer(5)))));
}

/// At a position holding the single digit `5` at the end of the input, an
/// expression parses to `Integer(5)`.
proof fn lemma_parse_just_integer_5(s: Seq<char>, i: int)
    requires
        0 <= i,
        i + 1 == s.len(),
        s[i] == '5',
    ensures
        p_expr(s, i) == Some((s.len() as int, ExprV::Integer(5))),
{
    assert(is_digit_char(s[i]) && !crate::parser::is_space_char(s[i]));
    assert(p_space0(s, i) == i);
    assert(p_lparen(s, i) is None);
    assert(p_arglist(s, i) is None);
    assert(p_template(s, i) is None);
    assert(p_var_ref(s, i) is None);
    assert(p_tcall(s, i) is None);
    assert(digits_end(s, i + 1) == i + 1);
    assert(digits_end(s, i) == i + 1);
    assert(seq_val(s.subrange(i, i + 1)) == 5) by {
        let one = s.subrange(i, i + 1);
        assert(one.len() == 1);
        assert(one.last() == '5');
        assert(one.drop_last() =~= Seq::<char>::empty());
        assert(seq_val(one.drop_last()) == 0);
        assert(digit_val('5') == 5);
    }
    assert(p_integer(s, i) == Some((i + 1, 5int)));
    assert(p_dice_operand(s, i) == Some((i + 1, ExprV::Integer(5))));
    assert(p_dice(s, i) is None);
    assert(p_subexpr(s, i) == Some((i + 1, ExprV::Integer(5))));
    assert(p_space1(s, i + 1) is None);
    assert(p_term_rest(s, i + 1, ExprV::Integer(5)) == (i + 1, ExprV::Integer(5)));
    assert(p_term(s, i) == Some((i + 1, ExprV::Integer(5))));
    assert(p_expr(s, i) == Some((i + 1, ExprV::Integer(5))));
}

/// `!roll {foo}` parses to exactly `Roll(Variable("foo"))`.
proof fn lemma_parse_roll_foo()
    ensures
        parse_stmt("!roll {foo}"@) == Some(StmtV::Roll(ExprV::Variable("foo"@))),
{
    reveal_strlit("!roll {foo}");
    reveal_strlit("roll");
    reveal_strlit("foo");
    let s = "!roll {foo}"@;
    assert(s.len() == 11);
    assert(s[0] == '!' && s[1] == 'r' && s[2] == 'o' && s[3] == 'l' && s[4] == 'l' && s[5] == ' '
        && s[6] == '{' && s[7] == 'f' && s[8] == 'o' && s[9] == 'o' && s[10] == '}');
    assert(has_tag(s, 1, "roll"@)) by {
        assert(s.subrange(1, 5) =~= "roll"@);
    }
    assert(p_space0(s, 6) == 6);
    assert(p_space0(s, 5) == 6);
    assert(p_space1(s, 5) == Some(6int));
    // Parse the reference `{foo}`.
    assert(word_end(s, 10) == 10);
    assert(word_end(s, 9) == 10);
    assert(word_end(s, 8) == 10);
    assert(word_end(s, 7) == 10);
    assert(p_bareword(s, 7) == Some((10int, s.subrange(7, 10))));
    assert(s.subrange(7, 10) =~= "foo"@);
    assert(p_var_ref(s, 6) == Some((11int, ExprV::Variable("foo"@))));
    // The brace opens no parenthesised form, so the reference itself is the
    // expression: a template needs `(`, a call needs `(` after the target,
    // and a term needs a dice roll, an integer or the reference itself.
    assert(p_space0(s, 6) == 6);
    assert(p_lparen(s, 6) is None);
    assert(p_arglist(s, 6) is None);
    assert(p_template(s, 6) is None);
    assert(p_tcall(s, 6) is None) by {
        assert(p_var_ref(s, 6) == Some((11int, ExprV::Variable("foo"@))));
        assert(!(11int < s.len()));
    }
    assert(p_dice_operand(s, 6) == Some((11int, ExprV::Variable("foo"@))));
    assert(p_dice(s, 6) is None);
    assert(p_integer(s, 6) is None);
    assert(p_subexpr(s, 6) == Some((11int, ExprV::Variable("foo"@))));
    assert(p_space1(s, 11) is None);
    assert(p_term_rest(s, 11, ExprV::Variable("foo"@)) == (11int, ExprV::Variable("foo"@)));
    assert(p_term(s, 6) == Some((11int, ExprV::Variable("foo"@))));
    assert(p_expr(s, 6) == Some((11int, ExprV::Variable("foo"@))));
    assert(p_statement(s, 1) == Some((11int, StmtV::Roll(ExprV::Variable("foo"@)))));
}

/// Distinct contexts have distinct user keys, provided neither scope embeds
/// the `#` separator: the key reads back its scope and user unambiguously.
pub proof fn lemma_user_key_injective(s1: Seq<char>, u1: Seq<char>, s2: Seq<char>, u2: Seq<char>)
    requires
        forall|i: int| 0 <= i < s1.len() ==> s1[i] != '#',
        forall|i: int| 0 <= i < s2.len() ==> s2[i] != '#',
        s1 != s2 || u1 != u2,
    ensures
        user_key_of(s1, u1) != user_key_of(s2, u2),
{
    reveal_strlit("scope:");
    reveal_strlit("#scope_type:user#user:");
    let pre = "scope:"@;
    let mid = "#scope_type:user#user:"@;
    assert(pre.len() == 6);
    assert(mid.len() == 22);
    assert(mid[0] == '#');
    let k1 = user_key_of(s1, u1);
    let k2 = user_key_of(s2, u2);
    if k1 == k2 {
        assert(k1.len() == 28 + s1.len() + u1.len());
        assert(k2.len() == 28 + s2.len() + u2.len());
        assert(forall|i: int| 0 <= i < s1.len() ==> k1[6 + i] == s1[i]);
        assert(forall|i: int| 0 <= i < s2.len() ==> k2[6 + i] == s2[i]);
        assert(k1[6 + s1.len() as int] == '#');
        assert(k2[6 + s2.len() as int] == '#');
        if s1.len() < s2.len() {
            assert(k2[6 + s1.len() as int] == s2[s1.len() as int]);
            assert(s2[s1.len() as int] == '#');
            assert(false);
        }
        if s2.len() < s1.len() {
            assert(k1[6 + s2.len() as int] == s1[s2.len() as int]);
            assert(s1[s2.len() as int] == '#');
            assert(false);
        }
        assert(s1.len() == s2.len());
        assert(s1 =~= s2);
        assert(u1.len() == u2.len());
        assert(forall|i: int| 0 <= i < u1.len() ==> k1[28 + s1.len() + i] == u1[i]) by {
            assert(forall|i: int| 0 <= i < u1.len() ==> k1[28 + s1.len() + i] == u1[i]);
        }
        assert(forall|i: int| 0 <= i < u2.len() ==> k2[28 + s2.len() + i] == u2[i]);
        assert(u1 =~= u2);
        assert(false);
    }
}

/// Context isolation: a variable bound under one context is invisible under
/// any other whose scope or user differs, provided neither scope embeds the
/// `#` separator.  (A scope holding `#scope_type:user#user:` as a substring
/// could forge another context's key, which is why the separator is
/// excluded.)
pub proof fn lemma_context_isolation(
    scopes: Map<Seq<char>, Map<Seq<char>, ExprV>>,
    s1: Seq<char>,
    u1: Seq<char>,
    s2: Seq<char>,
    u2: Seq<char>,
    name: Seq<char>,
    v: ExprV,
)
    requires
        forall|i: int| 0 <= i < s1.len() ==> s1[i] != '#',
        forall|i: int| 0 <= i < s2.len() ==> s2[i] != '#',
        s1 != s2 || u1 != u2,
    ensures
        scope_of(
            scopes.insert(
                user_key_of(s1, u1),
                scope_of(scopes, user_key_of(s1, u1)).insert(name, v),
            ),
            user_key_of(s2, u2),
        ) == scope_of(scopes, user_key_of(s2, u2)),
{
    lemma_user_key_injective(s1, u1, s2, u2);
}

} // verus!
