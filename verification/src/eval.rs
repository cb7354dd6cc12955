//! The evaluator: an iterative tree-walking interpreter over the explicit
//! call/return stack, with a deterministic spec-level model.
//!
//! Dice are drawn through a [`RollSource`], so a run's numeric results are
//! fixed only once the source is.  The model `min_eval` gives the exact
//! outcome when every die lands on 1 (`RollSource::always_min`); the
//! executable evaluator is proved equal to it under such a source, and the
//! stack discipline — children pushed in source order, values popped back in
//! source order — is proved against the same model.
use crate::call_stack::{Control, ControlStack};
use crate::decimal::dec_str;
use crate::dice::RollSource;
use crate::environments::hash_map_environment::HashMapEnvironment;
use crate::error::{ErrV, RollerError};
use crate::types::{scope_of, Context, Environment, ExprV, Expression, Op, Statement, StmtV};
use vstd::prelude::*;
use vstd::string::StringExecFns;

verus! {

/// How many template calls may nest before evaluation stops with an error;
/// guards against recipes that call themselves without end.
pub const MAX_CALL_DEPTH: u64 = 64;

/// Message for an operand that is not an integer where one is needed.
pub open spec fn msg_type_mismatch() -> Seq<char> {
    "type mismatch in operands"@
}

/// Message for a die with fewer than one side, a negative count, or a count
/// too large to roll.
pub open spec fn msg_bad_dice() -> Seq<char> {
    "invalid dice roll"@
}

/// Message for an arithmetic result outside the 64-bit signed range.
pub open spec fn msg_overflow() -> Seq<char> {
    "integer overflow"@
}

/// Message for calling a value that is not a template.
pub open spec fn msg_not_callable() -> Seq<char> {
    "not callable"@
}

/// Message for a template without body expressions.
pub open spec fn msg_empty_body() -> Seq<char> {
    "missing body for dice roll template"@
}

/// Message for a call whose argument count differs from the template's
/// parameter count.
pub open spec fn msg_arity() -> Seq<char> {
    "wrong number of arguments for dice roll template"@
}

/// Message for an evaluation that did not leave exactly one result.
pub open spec fn msg_no_result() -> Seq<char> {
    "evaluation did not produce a result"@
}

/// Message for template calls nested beyond [`MAX_CALL_DEPTH`].
pub open spec fn msg_depth() -> Seq<char> {
    "dice roll template calls nested too deeply"@
}

/// Message for a failed variable lookup.
pub open spec fn lookup_fail_msg(name: Seq<char>) -> Seq<char> {
    "failed to lookup variable "@ + name
}

/// The number of nodes the stack walks for `e`; template bodies count only
/// when called, so a template value weighs one.
pub open spec fn sz_expr(e: ExprV) -> nat
    decreases e,
{
    match e {
        ExprV::Variable(_) => 1,
        ExprV::Integer(_) => 1,
        ExprV::Template { .. } => 1,
        ExprV::Call { target, args } => 1 + sz_expr(*target) + sz_list(args),
        ExprV::Dice { count, sides } => 1 + sz_expr(*count) + sz_expr(*sides),
        ExprV::Term(l, r, _) => 1 + sz_expr(*l) + sz_expr(*r),
    }
}

/// The summed size of a list of expressions.
pub open spec fn sz_list(l: Seq<ExprV>) -> nat
    decreases l,
{
    if l.len() == 0 {
        0
    } else {
        sz_list(l.drop_last()) + sz_expr(l.last())
    }
}

/// Every expression has positive size.
pub proof fn lemma_sz_pos(e: ExprV)
    ensures
        sz_expr(e) >= 1,
{
}

/// A list's size bounds each element's size, and dropping the last element
/// shrinks a non-empty list's size.
pub proof fn lemma_sz_list_last(l: Seq<ExprV>)
    requires
        l.len() > 0,
    ensures
        sz_expr(l.last()) <= sz_list(l),
        sz_list(l.drop_last()) < sz_list(l),
{
    lemma_sz_pos(l.last());
}

/// The caller's bindings extended with template parameters bound, in order,
/// to the call's argument values.
pub open spec fn bind_args(
    env: Map<Seq<char>, ExprV>,
    params: Seq<Seq<char>>,
    vals: Seq<ExprV>,
) -> Map<Seq<char>, ExprV>
    recommends
        params.len() == vals.len(),
    decreases params.len(),
{
    if params.len() == 0 {
        env
    } else {
        bind_args(env.insert(params.first(), vals.first()), params.drop_first(), vals.drop_first())
    }
}

/// The reduction of a binary term over already-reduced operands.
pub open spec fn min_finish_term(lv: ExprV, rv: ExprV, op: Op) -> Result<ExprV, ErrV> {
    match (lv, rv) {
        (ExprV::Integer(a), ExprV::Integer(b)) => {
            let v = if op is Add {
                a + b
            } else {
                a - b
            };
            if v < i64::MIN || v > i64::MAX {
                Err(ErrV::Eval(msg_overflow()))
            } else {
                Ok(ExprV::Integer(v as i64))
            }
        },
        _ => Err(ErrV::Eval(msg_type_mismatch())),
    }
}

/// The reduction of a dice roll over already-reduced operands, when every
/// die lands on 1: `count` dice sum to `count`.
pub open spec fn min_finish_dice(cv: ExprV, sv: ExprV) -> Result<ExprV, ErrV> {
    match (cv, sv) {
        (ExprV::Integer(c), ExprV::Integer(s)) => {
            if s >= 1 && c >= 0 && c <= usize::MAX {
                Ok(ExprV::Integer(c))
            } else {
                Err(ErrV::Eval(msg_bad_dice()))
            }
        },
        _ => Err(ErrV::Eval(msg_type_mismatch())),
    }
}

/// The reduction of a template call over the reduced target and argument
/// values: the body runs, in order, in a fresh environment seeded with the
/// caller's bindings and the bound parameters, and the last body
/// expression's value is the call's.
pub open spec fn min_finish_call(
    tv: ExprV,
    vals: Seq<ExprV>,
    env: Map<Seq<char>, ExprV>,
    fuel: nat,
) -> Result<ExprV, ErrV>
    decreases fuel, 0nat, 0nat,
{
    match tv {
        ExprV::Template { args: params, body } => {
            if params.len() != vals.len() {
                Err(ErrV::Eval(msg_arity()))
            } else if body.len() == 0 {
                Err(ErrV::Eval(msg_empty_body()))
            } else if fuel == 0 {
                Err(ErrV::Eval(msg_depth()))
            } else {
                min_eval_body(body, bind_args(env, params, vals), (fuel - 1) as nat)
            }
        },
        _ => Err(ErrV::Eval(msg_not_callable())),
    }
}

/// Evaluation with every die at its minimum: the exact model the executable
/// evaluator meets under an `always_min` roll source.
pub open spec fn min_eval(e: ExprV, env: Map<Seq<char>, ExprV>, fuel: nat) -> Result<ExprV, ErrV>
    decreases fuel, sz_expr(e), 0nat,
{
    match e {
        ExprV::Integer(_) => Ok(e),
        ExprV::Template { .. } => Ok(e),
        ExprV::Variable(name) => if env.contains_key(name) {
            Ok(env[name])
        } else {
            Err(ErrV::Eval(lookup_fail_msg(name)))
        },
        ExprV::Term(l, r, op) => match min_eval(*r, env, fuel) {
            Err(er) => Err(er),
            Ok(rv) => match min_eval(*l, env, fuel) {
                Err(er) => Err(er),
                Ok(lv) => min_finish_term(lv, rv, op),
            },
        },
        ExprV::Dice { count, sides } => match min_eval(*sides, env, fuel) {
            Err(er) => Err(er),
            Ok(sv) => match min_eval(*count, env, fuel) {
                Err(er) => Err(er),
                Ok(cv) => min_finish_dice(cv, sv),
            },
        },
        ExprV::Call { target, args } => {
            proof {
                lemma_sz_pos(*target);
            }
            match min_eval_list(args, env, fuel) {
                Err(er) => Err(er),
                Ok(vs) => match min_eval(*target, env, fuel) {
                    Err(er) => Err(er),
                    Ok(tv) => min_finish_call(tv, vs, env, fuel),
                },
            }
        },
    }
}

/// Evaluates a list of expressions from the last to the first — the order
/// the call stack reduces scheduled children in — and collects the values
/// in source order.
pub open spec fn min_eval_list(l: Seq<ExprV>, env: Map<Seq<char>, ExprV>, fuel: nat) -> Result<
    Seq<ExprV>,
    ErrV,
>
    decreases fuel, sz_list(l), 1nat,
{
    if l.len() == 0 {
        Ok(Seq::empty())
    } else {
        proof {
            lemma_sz_list_last(l);
        }
        match min_eval(l.last(), env, fuel) {
            Err(er) => Err(er),
            Ok(v) => match min_eval_list(l.drop_last(), env, fuel) {
                Err(er) => Err(er),
                Ok(vs) => Ok(vs.push(v)),
            },
        }
    }
}

/// Evaluates every body expression in order and returns the last one's
/// value; an empty body fails.
pub open spec fn min_eval_body(
    body: Seq<ExprV>,
    env: Map<Seq<char>, ExprV>,
    fuel: nat,
) -> Result<ExprV, ErrV>
    decreases fuel, sz_list(body), 2nat,
{
    if body.len() == 0 {
        Err(ErrV::Eval(msg_empty_body()))
    } else if body.len() == 1 {
        proof {
            lemma_sz_list_last(body);
        }
        min_eval(body.last(), env, fuel)
    } else {
        proof {
            lemma_sz_list_last(body);
        }
        match min_eval_body(body.drop_last(), env, fuel) {
            Err(er) => Err(er),
            Ok(_) => min_eval(body.last(), env, fuel),
        }
    }
}

/// A node the stack expands before reducing.
pub open spec fn is_composite(e: ExprV) -> bool {
    e is Term || e is Dice || e is Call
}

/// The children a composite node schedules, in source order.
pub open spec fn kids(e: ExprV) -> Seq<ExprV> {
    match e {
        ExprV::Term(l, r, _) => seq![*l, *r],
        ExprV::Dice { count, sides } => seq![*count, *sides],
        ExprV::Call { target, args } => seq![*target] + args,
        _ => Seq::empty(),
    }
}

/// The weight of one call entry: an expanded (waiting) node only awaits its
/// reduction, an unexpanded one still holds its whole subtree.
pub open spec fn weight(c: (bool, ExprV)) -> nat {
    if c.0 {
        1
    } else {
        2 * sz_expr(c.1)
    }
}

/// The summed weight of a call stack; it shrinks at every step of the
/// driver loop.
pub open spec fn weight_seq(cs: Seq<(bool, ExprV)>) -> nat
    decreases cs.len(),
{
    if cs.len() == 0 {
        0
    } else {
        weight_seq(cs.drop_last()) + weight(cs.last())
    }
}

/// Weight adds over concatenation.
pub proof fn lemma_weight_concat(a: Seq<(bool, ExprV)>, b: Seq<(bool, ExprV)>)
    ensures
        weight_seq(a + b) == weight_seq(a) + weight_seq(b),
    decreases b.len(),
{
    if b.len() == 0 {
        assert(a + b =~= a);
    } else {
        lemma_weight_concat(a, b.drop_last());
        assert((a + b).drop_last() =~= a + b.drop_last());
        assert((a + b).last() == b.last());
    }
}

/// Freshly scheduled children weigh twice their summed size.
pub proof fn lemma_weight_kids(l: Seq<ExprV>)
    ensures
        weight_seq(l.map_values(|v: ExprV| (false, v))) == 2 * sz_list(l),
    decreases l.len(),
{
    if l.len() > 0 {
        lemma_weight_kids(l.drop_last());
        let m = l.map_values(|v: ExprV| (false, v));
        assert(m.drop_last() =~= l.drop_last().map_values(|v: ExprV| (false, v)));
        assert(m.last() == (false, l.last()));
    }
}

/// Size adds over prepending one expression.
pub proof fn lemma_sz_list_cons(x: ExprV, l: Seq<ExprV>)
    ensures
        sz_list(seq![x] + l) == sz_expr(x) + sz_list(l),
    decreases l.len(),
{
    if l.len() == 0 {
        reveal_with_fuel(sz_list, 3);
        assert(seq![x] + l =~= seq![x]);
        assert(seq![x].drop_last() =~= Seq::<ExprV>::empty());
        assert(seq![x].last() == x);
    } else {
        lemma_sz_list_cons(x, l.drop_last());
        assert((seq![x] + l).drop_last() =~= seq![x] + l.drop_last());
        assert((seq![x] + l).last() == l.last());
    }
}

/// A composite node's children weigh less than the node itself.
pub proof fn lemma_sz_kids(e: ExprV)
    requires
        is_composite(e),
    ensures
        sz_list(kids(e)) < sz_expr(e),
{
    reveal_with_fuel(sz_list, 3);
    match e {
        ExprV::Term(l, r, _) => {
            let k = kids(e);
            assert(k.drop_last() =~= seq![*l]);
            assert(seq![*l].drop_last() =~= Seq::<ExprV>::empty());
            assert(sz_list(k) == sz_expr(*l) + sz_expr(*r));
        },
        ExprV::Dice { count, sides } => {
            let k = kids(e);
            assert(k.drop_last() =~= seq![*count]);
            assert(seq![*count].drop_last() =~= Seq::<ExprV>::empty());
            assert(sz_list(k) == sz_expr(*count) + sz_expr(*sides));
        },
        ExprV::Call { target, args } => {
            lemma_sz_list_cons(*target, args);
        },
        _ => {},
    }
}

/// What remains of a run of the driver loop from a given configuration:
/// the final return stack, or the error that stops the loop.  Each case is
/// one iteration of the loop.
pub open spec fn run(
    calls: Seq<(bool, ExprV)>,
    rets: Seq<ExprV>,
    env: Map<Seq<char>, ExprV>,
    fuel: nat,
) -> Result<Seq<ExprV>, ErrV>
    decreases fuel, weight_seq(calls), 3nat,
{
    if calls.len() == 0 {
        Ok(rets)
    } else {
        let waiting = calls.last().0;
        let e = calls.last().1;
        let rest = calls.drop_last();
        if !waiting && is_composite(e) {
            // Expand: mark the node waiting and schedule its children.
            proof {
                lemma_weight_concat(
                    rest.push((true, e)),
                    kids(e).map_values(|v: ExprV| (false, v)),
                );
                lemma_weight_kids(kids(e));
                lemma_sz_kids(e);
                assert(rest.push((true, e)).drop_last() =~= rest);
                assert(weight_seq(calls) == weight_seq(rest) + 2 * sz_expr(e));
            }
            run(rest.push((true, e)) + kids(e).map_values(|v: ExprV| (false, v)), rets, env, fuel)
        } else {
            // Reduce the node in focus against the return stack.
            proof {
                lemma_sz_pos(e);
            }
            match e {
                ExprV::Integer(_) => run(rest, rets.push(e), env, fuel),
                ExprV::Template { .. } => run(rest, rets.push(e), env, fuel),
                ExprV::Variable(name) => if env.contains_key(name) {
                    run(rest, rets.push(env[name]), env, fuel)
                } else {
                    Err(ErrV::Eval(lookup_fail_msg(name)))
                },
                ExprV::Term(_, _, op) => if rets.len() < 2 {
                    Err(ErrV::Eval(msg_no_result()))
                } else {
                    match min_finish_term(rets.last(), rets[rets.len() - 2], op) {
                        Err(er) => Err(er),
                        Ok(v) => run(rest, rets.drop_last().drop_last().push(v), env, fuel),
                    }
                },
                ExprV::Dice { .. } => if rets.len() < 2 {
                    Err(ErrV::Eval(msg_no_result()))
                } else {
                    match min_finish_dice(rets.last(), rets[rets.len() - 2]) {
                        Err(er) => Err(er),
                        Ok(v) => run(rest, rets.drop_last().drop_last().push(v), env, fuel),
                    }
                },
                ExprV::Call { args, .. } => {
                    let n = args.len();
                    if rets.len() < 1 + n {
                        Err(ErrV::Eval(msg_no_result()))
                    } else {
                        let tv = rets.last();
                        let vals = rets.subrange(
                            rets.len() - 1 - n as int,
                            rets.len() - 1,
                        ).reverse();
                        match min_finish_call(tv, vals, env, fuel) {
                            Err(er) => Err(er),
                            Ok(v) => run(
                                rest,
                                rets.subrange(0, rets.len() - 1 - n as int).push(v),
                                env,
                                fuel,
                            ),
                        }
                    }
                },
            }
        }
    }
}

/// A call stack extended with freshly scheduled children, in source order.
pub open spec fn push_kids(calls: Seq<(bool, ExprV)>, l: Seq<ExprV>) -> Seq<(bool, ExprV)> {
    calls + l.map_values(|v: ExprV| (false, v))
}

/// Evaluating a list with one expression prepended evaluates the list
/// first (last to first), then the prepended expression.
#[verifier::rlimit(60)]
pub proof fn lemma_min_eval_list_cons(x: ExprV, l: Seq<ExprV>, env: Map<Seq<char>, ExprV>, fuel: nat)
    ensures
        min_eval_list(seq![x] + l, env, fuel) == (match min_eval_list(l, env, fuel) {
            Err(er) => Err(er),
            Ok(vs) => match min_eval(x, env, fuel) {
                Err(er) => Err(er),
                Ok(xv) => Ok(seq![xv] + vs),
            },
        }),
    decreases l.len(),
{
    let c = seq![x] + l;
    assert(c.len() == 1 + l.len());
    if l.len() == 0 {
        assert(c =~= seq![x]);
        assert(c.last() == x);
        assert(c.drop_last() =~= Seq::<ExprV>::empty());
        assert(min_eval_list(Seq::<ExprV>::empty(), env, fuel) == Ok::<Seq<ExprV>, ErrV>(
            Seq::empty(),
        ));
        assert(min_eval_list(l, env, fuel) == Ok::<Seq<ExprV>, ErrV>(Seq::empty()));
        match min_eval(x, env, fuel) {
            Ok(xv) => {
                assert(min_eval_list(c, env, fuel) == Ok::<Seq<ExprV>, ErrV>(
                    Seq::<ExprV>::empty().push(xv),
                ));
                assert(Seq::<ExprV>::empty().push(xv) =~= seq![xv] + Seq::<ExprV>::empty());
            },
            Err(er) => {
                assert(min_eval_list(c, env, fuel) == Err::<Seq<ExprV>, ErrV>(er));
            },
        }
    } else {
        assert(c.last() == l.last());
        assert(c.drop_last() =~= seq![x] + l.drop_last());
        lemma_min_eval_list_cons(x, l.drop_last(), env, fuel);
        match min_eval(l.last(), env, fuel) {
            Err(er) => {
                assert(min_eval_list(c, env, fuel) == Err::<Seq<ExprV>, ErrV>(er));
                assert(min_eval_list(l, env, fuel) == Err::<Seq<ExprV>, ErrV>(er));
            },
            Ok(v) => {
                assert(min_eval_list(c, env, fuel) == (match min_eval_list(
                    c.drop_last(),
                    env,
                    fuel,
                ) {
                    Err(er2) => Err(er2),
                    Ok(vs2) => Ok(vs2.push(v)),
                }));
                assert(min_eval_list(l, env, fuel) == (match min_eval_list(
                    l.drop_last(),
                    env,
                    fuel,
                ) {
                    Err(er2) => Err(er2),
                    Ok(vs2) => Ok(vs2.push(v)),
                }));
                match min_eval_list(l.drop_last(), env, fuel) {
                    Err(_) => {},
                    Ok(vs) => {
                        match min_eval(x, env, fuel) {
                            Err(_) => {},
                            Ok(xv) => {
                                assert((seq![xv] + vs).push(v) =~= seq![xv] + vs.push(v));
                            },
                        }
                    },
                }
            },
        }
    }
}

/// A successful list evaluation yields one value per expression.
pub proof fn lemma_min_eval_list_len(l: Seq<ExprV>, env: Map<Seq<char>, ExprV>, fuel: nat)
    ensures
        min_eval_list(l, env, fuel) matches Ok(vs) ==> vs.len() == l.len(),
    decreases l.len(),
{
    if l.len() > 0 {
        lemma_min_eval_list_len(l.drop_last(), env, fuel);
    }
}

/// Scheduling one unexpanded expression above `calls` runs exactly as its
/// model evaluation followed by the rest of the loop with its value on the
/// return stack.
pub proof fn lemma_run_eval(
    e: ExprV,
    calls: Seq<(bool, ExprV)>,
    rets: Seq<ExprV>,
    env: Map<Seq<char>, ExprV>,
    fuel: nat,
)
    ensures
        run(calls.push((false, e)), rets, env, fuel) == (match min_eval(e, env, fuel) {
            Ok(v) => run(calls, rets.push(v), env, fuel),
            Err(er) => Err(er),
        }),
    decreases fuel, sz_expr(e), 0nat,
{
    let c0 = calls.push((false, e));
    assert(c0.last() == (false, e));
    assert(c0.drop_last() =~= calls);
    match e {
        ExprV::Integer(_) => {},
        ExprV::Template { .. } => {},
        ExprV::Variable(_) => {},
        ExprV::Term(l, r, op) => {
            let c1 = calls.push((true, e)) + kids(e).map_values(|v: ExprV| (false, v));
            assert(run(c0, rets, env, fuel) == run(c1, rets, env, fuel));
            assert(c1 =~= calls.push((true, e)).push((false, *l)).push((false, *r)));
            lemma_run_eval(*r, calls.push((true, e)).push((false, *l)), rets, env, fuel);
            match min_eval(*r, env, fuel) {
                Err(_) => {},
                Ok(rv) => {
                    lemma_run_eval(*l, calls.push((true, e)), rets.push(rv), env, fuel);
                    match min_eval(*l, env, fuel) {
                        Err(_) => {},
                        Ok(lv) => {
                            let c2 = calls.push((true, e));
                            let rets2 = rets.push(rv).push(lv);
                            assert(c2.last() == (true, e));
                            assert(c2.drop_last() =~= calls);
                            assert(rets2.last() == lv);
                            assert(rets2[rets2.len() - 2] == rv);
                            match min_finish_term(lv, rv, op) {
                                Err(_) => {},
                                Ok(v) => {
                                    assert(rets2.drop_last().drop_last() =~= rets);
                                },
                            }
                        },
                    }
                },
            }
        },
        ExprV::Dice { count, sides } => {
            let c1 = calls.push((true, e)) + kids(e).map_values(|v: ExprV| (false, v));
            assert(run(c0, rets, env, fuel) == run(c1, rets, env, fuel));
            assert(c1 =~= calls.push((true, e)).push((false, *count)).push((false, *sides)));
            lemma_run_eval(*sides, calls.push((true, e)).push((false, *count)), rets, env, fuel);
            match min_eval(*sides, env, fuel) {
                Err(_) => {},
                Ok(sv) => {
                    lemma_run_eval(*count, calls.push((true, e)), rets.push(sv), env, fuel);
                    match min_eval(*count, env, fuel) {
                        Err(_) => {},
                        Ok(cv) => {
                            let c2 = calls.push((true, e));
                            let rets2 = rets.push(sv).push(cv);
                            assert(c2.last() == (true, e));
                            assert(c2.drop_last() =~= calls);
                            assert(rets2.last() == cv);
                            assert(rets2[rets2.len() - 2] == sv);
                            match min_finish_dice(cv, sv) {
                                Err(_) => {},
                                Ok(v) => {
                                    assert(rets2.drop_last().drop_last() =~= rets);
                                },
                            }
                        },
                    }
                },
            }
        },
        ExprV::Call { target, args } => {
            let ks = kids(e);
            let c1 = calls.push((true, e)) + ks.map_values(|v: ExprV| (false, v));
            assert(run(c0, rets, env, fuel) == run(c1, rets, env, fuel));
            assert(c1 == push_kids(calls.push((true, e)), ks));
            lemma_sz_kids(e);
            lemma_run_list(ks, calls.push((true, e)), rets, env, fuel);
            lemma_min_eval_list_cons(*target, args, env, fuel);
            match min_eval_list(args, env, fuel) {
                Err(_) => {},
                Ok(avs) => {
                    match min_eval(*target, env, fuel) {
                        Err(_) => {},
                        Ok(tv) => {
                            let vs = seq![tv] + avs;
                            assert(min_eval_list(ks, env, fuel) == Ok::<Seq<ExprV>, ErrV>(vs));
                            let rets3 = rets + vs.reverse();
                            let n = args.len() as int;
                            lemma_min_eval_list_len(args, env, fuel);
                            assert(avs.len() == n);
                            assert(vs.reverse() =~= avs.reverse().push(tv));
                            assert(rets3.len() == rets.len() + n + 1);
                            let c2 = calls.push((true, e));
                            assert(c2.last() == (true, e));
                            assert(c2.drop_last() =~= calls);
                            assert(rets3.last() == tv);
                            assert(rets3.subrange(rets3.len() - 1 - n, rets3.len() - 1)
                                =~= avs.reverse());
                            assert(avs.reverse().reverse() =~= avs);
                            match min_finish_call(tv, avs, env, fuel) {
                                Err(_) => {},
                                Ok(v) => {
                                    assert(rets3.subrange(0, rets3.len() - 1 - n) =~= rets);
                                },
                            }
                        },
                    }
                },
            }
        },
    }
}

/// Scheduling a list of unexpanded children above `calls` runs exactly as
/// the model's last-to-first evaluation of the list, leaving the values on
/// the return stack with the first child's value on top.
pub proof fn lemma_run_list(
    l: Seq<ExprV>,
    calls: Seq<(bool, ExprV)>,
    rets: Seq<ExprV>,
    env: Map<Seq<char>, ExprV>,
    fuel: nat,
)
    ensures
        run(push_kids(calls, l), rets, env, fuel) == (match min_eval_list(l, env, fuel) {
            Ok(vs) => run(calls, rets + vs.reverse(), env, fuel),
            Err(er) => Err(er),
        }),
    decreases fuel, sz_list(l), 1nat,
{
    if l.len() == 0 {
        assert(push_kids(calls, l) =~= calls);
        assert(rets + Seq::<ExprV>::empty().reverse() =~= rets);
    } else {
        lemma_sz_list_last(l);
        assert(push_kids(calls, l) =~= push_kids(calls, l.drop_last()).push((false, l.last())));
        lemma_run_eval(l.last(), push_kids(calls, l.drop_last()), rets, env, fuel);
        match min_eval(l.last(), env, fuel) {
            Err(_) => {},
            Ok(v) => {
                lemma_run_list(l.drop_last(), calls, rets.push(v), env, fuel);
                match min_eval_list(l.drop_last(), env, fuel) {
                    Err(_) => {},
                    Ok(vs) => {
                        assert(vs.push(v).reverse() =~= seq![v] + vs.reverse());
                        assert(rets + (vs.push(v)).reverse() =~= rets.push(v) + vs.reverse());
                    },
                }
            },
        }
    }
}

/// Binding one more parameter at the end extends the bound map by it.
pub proof fn lemma_bind_args_push(
    env: Map<Seq<char>, ExprV>,
    params: Seq<Seq<char>>,
    vals: Seq<ExprV>,
    x: Seq<char>,
    y: ExprV,
)
    requires
        params.len() == vals.len(),
    ensures
        bind_args(env, params.push(x), vals.push(y)) == bind_args(env, params, vals).insert(x, y),
    decreases params.len(),
{
    if params.len() == 0 {
        assert(params.push(x).drop_first() =~= params);
        assert(vals.push(y).drop_first() =~= vals);
        assert(params.push(x).first() == x);
        assert(vals.push(y).first() == y);
        assert(bind_args(env.insert(x, y), params, vals) == env.insert(x, y));
    } else {
        assert(params.push(x).drop_first() =~= params.drop_first().push(x));
        assert(vals.push(y).drop_first() =~= vals.drop_first().push(y));
        assert(params.push(x).first() == params.first());
        assert(vals.push(y).first() == vals.first());
        lemma_bind_args_push(
            env.insert(params.first(), vals.first()),
            params.drop_first(),
            vals.drop_first(),
            x,
            y,
        );
    }
}

/// The view of an evaluation result.
pub open spec fn res_view(r: Result<Expression, RollerError>) -> Result<ExprV, ErrV> {
    match r {
        Ok(e) => Ok(e.view()),
        Err(er) => Err(er.view()),
    }
}

/// A run from the initial configuration — one unexpanded expression, an
/// empty return stack — leaves exactly the model's value, or stops with the
/// model's error.
pub proof fn lemma_run_initial(e: ExprV, env: Map<Seq<char>, ExprV>, fuel: nat)
    ensures
        run(seq![(false, e)], Seq::empty(), env, fuel) == (match min_eval(e, env, fuel) {
            Ok(v) => Ok(seq![v]),
            Err(er) => Err(er),
        }),
{
    assert(seq![(false, e)] =~= Seq::<(bool, ExprV)>::empty().push((false, e)));
    lemma_run_eval(e, Seq::empty(), Seq::empty(), env, fuel);
    match min_eval(e, env, fuel) {
        Err(_) => {},
        Ok(v) => {
            assert(Seq::<ExprV>::empty().push(v) =~= seq![v]);
        },
    }
}

/// Evaluates `expr` against `env` under `ctx`, drawing dice from `rng` and
/// allowing `depth` further levels of template calls.
///
/// Under a roll source whose dice all land on 1 and a store whose snapshots
/// cannot fail, the result is exactly the model's (`min_eval`).
#[verifier::loop_isolation(false)]
#[verifier::rlimit(60)]
pub fn eval_expression_at<R: RollSource, E: Environment, C: Context>(
    rng: &mut R,
    env: &E,
    ctx: &C,
    expr: &Expression,
    depth: u64,
) -> (r: Result<Expression, RollerError>)
    requires
        env.inv(),
    ensures
        old(rng).always_min() && env.closure_total() ==> final(rng).always_min() && res_view(r)
            == min_eval(expr.view(), scope_of(env.scopes(), ctx.user_key()), depth as nat),
    decreases depth,
{
    let ghost envm = scope_of(env.scopes(), ctx.user_key());
    let ghost fueln = depth as nat;
    let ghost mincond = old(rng).always_min() && env.closure_total();
    let mut stack = ControlStack::new(expr.duplicate());
    let ghost expected = run(seq![(false, expr.view())], Seq::empty(), envm, fueln);
    proof {
        lemma_run_initial(expr.view(), envm, fueln);
        assert(stack.calls() =~= seq![(false, expr.view())]);
    }
    while stack.size_call() > 0
        invariant
            mincond ==> rng.always_min() && run(stack.calls(), stack.rets(), envm, fueln)
                == expected,
        decreases weight_seq(stack.calls()),
    {
        let ghost calls0 = stack.calls();
        let ghost rets0 = stack.rets();
        let ghost e = calls0.last().1;
        let top = match stack.peek_call() {
            Ok(t) => t,
            Err(_) => { return Err(RollerError::EvalError(s_no_result())) },
        };
        let ctl = match top {
            Expression::Term(left, right, _) => {
                let mut children: Vec<Expression> = Vec::new();
                children.push(*left);
                children.push(*right);
                proof {
                    lemma_view_seq_is_kids(children@, e);
                }
                stack.push_to_call_stack(children.as_slice())
            },
            Expression::DiceRoll { count, sides } => {
                let mut children: Vec<Expression> = Vec::new();
                children.push(*count);
                children.push(*sides);
                proof {
                    lemma_view_seq_is_kids(children@, e);
                }
                stack.push_to_call_stack(children.as_slice())
            },
            Expression::DiceRollTemplateCall { template_expression, args } => {
                let ghost tv0 = template_expression.view();
                let ghost argsv = crate::types::view_seq(args@);
                proof {
                    crate::types::lemma_view_seq(args@);
                    assert(e == ExprV::Call { target: Box::new(tv0), args: argsv });
                    assert(kids(e) == seq![tv0] + argsv);
                }
                let mut children: Vec<Expression> = Vec::new();
                children.push(*template_expression);
                let mut ai: usize = 0;
                while ai < args.len()
                    invariant
                        ai <= args.len(),
                        argsv.len() == args@.len(),
                        children@.len() == 1 + ai as int,
                        children@[0].view() == tv0,
                        forall|j: int|
                            1 <= j < children@.len() ==> (#[trigger] children@[j].view())
                                == argsv[j - 1],
                    decreases args.len() - ai,
                {
                    let a = args[ai].duplicate();
                    children.push(a);
                    proof {
                        crate::types::lemma_view_seq(args@);
                    }
                    ai = ai + 1;
                }
                proof {
                    assert forall|j: int| 0 <= j < children@.len() implies (
                    #[trigger] children@[j].view()) == kids(e)[j] by {
                        if j == 0 {
                            assert((seq![tv0] + argsv)[0] == tv0);
                        } else {
                            assert((seq![tv0] + argsv)[j] == argsv[j - 1]);
                        }
                    }
                    lemma_view_seq_is_kids(children@, e);
                }
                stack.push_to_call_stack(children.as_slice())
            },
            _ => Control::Continue,
        };
        match ctl {
            Control::Wait => {
                proof {
                    if mincond {
                        assert(stack.calls() =~= calls0.drop_last().push((true, e)) + kids(
                            e,
                        ).map_values(|v: ExprV| (false, v)));
                        assert(run(calls0, rets0, envm, fueln) == run(
                            stack.calls(),
                            stack.rets(),
                            envm,
                            fueln,
                        ));
                    }
                    lemma_weight_concat(
                        calls0.drop_last().push((true, e)),
                        kids(e).map_values(|v: ExprV| (false, v)),
                    );
                    lemma_weight_kids(kids(e));
                    lemma_sz_kids(e);
                    assert(calls0.drop_last().push((true, e)).drop_last() =~= calls0.drop_last());
                    assert(weight_seq(calls0) == weight_seq(calls0.drop_last()) + weight(
                        calls0.last(),
                    ));
                    assert(weight_seq(stack.calls()) < weight_seq(calls0));
                }
                continue ;
            },
            Control::Continue => {},
        }
        proof {
            assert(weight_seq(calls0) == weight_seq(calls0.drop_last()) + weight(calls0.last()));
            lemma_sz_pos(e);
        }
        let popped = match stack.pop_call() {
            Ok(p) => p,
            Err(_) => { return Err(RollerError::EvalError(s_no_result())) },
        };
        match popped {
            Expression::Integer(n) => {
                stack.push_return(Expression::Integer(n));
                proof {
                    if mincond {
                        assert(!is_composite(e));
                        assert(stack.rets() =~= rets0.push(e));
                        assert(run(calls0, rets0, envm, fueln) == run(
                            stack.calls(),
                            stack.rets(),
                            envm,
                            fueln,
                        ));
                    }
                }
            },
            Expression::DiceRollTemplate { args, expressions } => {
                stack.push_return(Expression::DiceRollTemplate { args, expressions });
                proof {
                    if mincond {
                        assert(!is_composite(e));
                        assert(stack.rets() =~= rets0.push(e));
                        assert(run(calls0, rets0, envm, fueln) == run(
                            stack.calls(),
                            stack.rets(),
                            envm,
                            fueln,
                        ));
                    }
                }
            },
            Expression::Variable(name) => {
                match env.get(ctx, name.as_str()) {
                    Some(stored) => {
                        stack.push_return(stored);
                        proof {
                            if mincond {
                                assert(!is_composite(e));
                                assert(e == ExprV::Variable(name@));
                                assert(stack.rets() =~= rets0.push(envm[name@]));
                                assert(run(calls0, rets0, envm, fueln) == run(
                                    stack.calls(),
                                    stack.rets(),
                                    envm,
                                    fueln,
                                ));
                            }
                        }
                    },
                    None => {
                        let mut m = String::from_str("failed to lookup variable ");
                        m.append(name.as_str());
                        proof {
                            if mincond {
                                assert(!is_composite(e));
                                assert(e == ExprV::Variable(name@));
                                assert(run(calls0, rets0, envm, fueln) == Err::<
                                    Seq<ExprV>,
                                    ErrV,
                                >(ErrV::Eval(lookup_fail_msg(name@))));
                                assert(m@ == lookup_fail_msg(name@));
                            }
                        }
                        return Err(RollerError::EvalError(m));
                    },
                }
            },
            Expression::Term(_, _, op) => {
                proof {
                    if mincond {
                        assert(e is Term);
                        assert(calls0.last().0);
                    }
                }
                let left = match stack.pop_return() {
                    Ok(v) => v,
                    Err(_) => {
                        proof {
                            if mincond {
                                assert(rets0.len() < 2);
                                assert(run(calls0, rets0, envm, fueln) == Err::<
                                    Seq<ExprV>,
                                    ErrV,
                                >(ErrV::Eval(msg_no_result())));
                            }
                        }
                        return Err(RollerError::EvalError(s_no_result()));
                    },
                };
                let right = match stack.pop_return() {
                    Ok(v) => v,
                    Err(_) => {
                        proof {
                            if mincond {
                                assert(rets0.len() < 2);
                                assert(run(calls0, rets0, envm, fueln) == Err::<
                                    Seq<ExprV>,
                                    ErrV,
                                >(ErrV::Eval(msg_no_result())));
                            }
                        }
                        return Err(RollerError::EvalError(s_no_result()));
                    },
                };
                proof {
                    if mincond {
                        assert(rets0.len() >= 2);
                        assert(left.view() == rets0.last());
                        assert(right.view() == rets0[rets0.len() - 2]);
                    }
                }
                match (left, right) {
                    (Expression::Integer(a), Expression::Integer(b)) => {
                        let wide: i128 = match op {
                            Op::Add => a as i128 + b as i128,
                            Op::Subtract => a as i128 - b as i128,
                        };
                        proof {
                            if mincond {
                                assert(min_finish_term(
                                    rets0.last(),
                                    rets0[rets0.len() - 2],
                                    op,
                                ) == min_finish_term(ExprV::Integer(a), ExprV::Integer(b), op));
                            }
                        }
                        if wide < i64::MIN as i128 || wide > i64::MAX as i128 {
                            proof {
                                if mincond {
                                    assert(run(calls0, rets0, envm, fueln) == Err::<
                                        Seq<ExprV>,
                                        ErrV,
                                    >(ErrV::Eval(msg_overflow())));
                                }
                            }
                            return Err(RollerError::EvalError(s_overflow()));
                        }
                        stack.push_return(Expression::Integer(wide as i64));
                        proof {
                            if mincond {
                                assert(stack.rets() =~= rets0.drop_last().drop_last().push(
                                    ExprV::Integer(wide as i64),
                                ));
                                assert(run(calls0, rets0, envm, fueln) == run(
                                    stack.calls(),
                                    stack.rets(),
                                    envm,
                                    fueln,
                                ));
                            }
                        }
                    },
                    _ => {
                        proof {
                            if mincond {
                                assert(min_finish_term(rets0.last(), rets0[rets0.len() - 2], op)
                                    == Err::<ExprV, ErrV>(ErrV::Eval(msg_type_mismatch())));
                                assert(run(calls0, rets0, envm, fueln) == Err::<
                                    Seq<ExprV>,
                                    ErrV,
                                >(ErrV::Eval(msg_type_mismatch())));
                            }
                        }
                        return Err(RollerError::EvalError(s_type_mismatch()));
                    },
                }
            },
            Expression::DiceRoll { .. } => {
                proof {
                    if mincond {
                        assert(e is Dice);
                        assert(calls0.last().0);
                    }
                }
                let count_v = match stack.pop_return() {
                    Ok(v) => v,
                    Err(_) => {
                        proof {
                            if mincond {
                                assert(rets0.len() < 2);
                                assert(run(calls0, rets0, envm, fueln) == Err::<
                                    Seq<ExprV>,
                                    ErrV,
                                >(ErrV::Eval(msg_no_result())));
                            }
                        }
                        return Err(RollerError::EvalError(s_no_result()));
                    },
                };
                let sides_v = match stack.pop_return() {
                    Ok(v) => v,
                    Err(_) => {
                        proof {
                            if mincond {
                                assert(rets0.len() < 2);
                                assert(run(calls0, rets0, envm, fueln) == Err::<
                                    Seq<ExprV>,
                                    ErrV,
                                >(ErrV::Eval(msg_no_result())));
                            }
                        }
                        return Err(RollerError::EvalError(s_no_result()));
                    },
                };
                proof {
                    if mincond {
                        assert(rets0.len() >= 2);
                        assert(count_v.view() == rets0.last());
                        assert(sides_v.view() == rets0[rets0.len() - 2]);
                    }
                }
                match (count_v, sides_v) {
                    (Expression::Integer(c), Expression::Integer(s)) => {
                        proof {
                            if mincond {
                                assert(min_finish_dice(rets0.last(), rets0[rets0.len() - 2])
                                    == min_finish_dice(ExprV::Integer(c), ExprV::Integer(s)));
                            }
                        }
                        if !(s >= 1 && c >= 0 && (c as u64) <= (usize::MAX as u64)) {
                            proof {
                                if mincond {
                                    assert(run(calls0, rets0, envm, fueln) == Err::<
                                        Seq<ExprV>,
                                        ErrV,
                                    >(ErrV::Eval(msg_bad_dice())));
                                }
                            }
                            return Err(RollerError::EvalError(s_bad_dice()));
                        }
                        let mut total: i64 = 0;
                        let mut done: i64 = 0;
                        while done < c
                            invariant
                                0 <= done <= c,
                                0 <= total,
                                mincond ==> rng.always_min() && total == done,
                            decreases c - done,
                        {
                            let rolled = rng.roll(s);
                            if total > i64::MAX - rolled {
                                proof {
                                    assert(!mincond);
                                }
                                return Err(RollerError::EvalError(s_overflow()));
                            }
                            total = total + rolled;
                            done = done + 1;
                        }
                        stack.push_return(Expression::Integer(total));
                        proof {
                            if mincond {
                                assert(total == c);
                                assert(stack.rets() =~= rets0.drop_last().drop_last().push(
                                    ExprV::Integer(c),
                                ));
                                assert(run(calls0, rets0, envm, fueln) == run(
                                    stack.calls(),
                                    stack.rets(),
                                    envm,
                                    fueln,
                                ));
                            }
                        }
                    },
                    _ => {
                        proof {
                            if mincond {
                                assert(min_finish_dice(rets0.last(), rets0[rets0.len() - 2])
                                    == Err::<ExprV, ErrV>(ErrV::Eval(msg_type_mismatch())));
                                assert(run(calls0, rets0, envm, fueln) == Err::<
                                    Seq<ExprV>,
                                    ErrV,
                                >(ErrV::Eval(msg_type_mismatch())));
                            }
                        }
                        return Err(RollerError::EvalError(s_type_mismatch()));
                    },
                }
            },
            Expression::DiceRollTemplateCall { template_expression: _, args } => {
                let n_args = args.len();
                let ghost n = n_args as int;
                proof {
                    crate::types::lemma_view_seq(args@);
                    if mincond {
                        assert(e is Call);
                        assert(e->Call_args.len() == n);
                        assert(calls0.last().0);
                    }
                }
                if stack.size_return() == 0 || stack.size_return() - 1 < n_args {
                    proof {
                        if mincond {
                            assert(rets0.len() < 1 + n);
                            assert(run(calls0, rets0, envm, fueln) == Err::<
                                Seq<ExprV>,
                                ErrV,
                            >(ErrV::Eval(msg_no_result())));
                        }
                    }
                    return Err(RollerError::EvalError(s_no_result()));
                }
                let ghost valsv = rets0.subrange(rets0.len() - 1 - n, rets0.len() - 1).reverse();
                let tval = match stack.pop_return() {
                    Ok(v) => v,
                    Err(_) => { return Err(RollerError::EvalError(s_no_result())) },
                };
                let ghost tv = tval.view();
                proof {
                    if mincond {
                        assert(tv == rets0.last());
                    }
                }
                match tval {
                    Expression::DiceRollTemplate { args: params, expressions: body } => {
                        let ghost paramsv = params@.map_values(|t: String| t@);
                        let ghost bodyv = crate::types::view_seq(body@);
                        proof {
                            crate::types::lemma_view_seq(body@);
                            if mincond {
                                assert(tv == ExprV::Template { args: paramsv, body: bodyv });
                                assert(valsv.len() == n);
                            }
                        }
                        if params.len() != n_args {
                            proof {
                                if mincond {
                                    assert(min_finish_call(tv, valsv, envm, fueln) == Err::<
                                        ExprV,
                                        ErrV,
                                    >(ErrV::Eval(msg_arity())));
                                    assert(run(calls0, rets0, envm, fueln) == Err::<
                                        Seq<ExprV>,
                                        ErrV,
                                    >(ErrV::Eval(msg_arity())));
                                }
                            }
                            return Err(RollerError::EvalError(s_arity()));
                        }
                        if body.len() == 0 {
                            proof {
                                if mincond {
                                    assert(run(calls0, rets0, envm, fueln) == Err::<
                                        Seq<ExprV>,
                                        ErrV,
                                    >(ErrV::Eval(msg_empty_body())));
                                }
                            }
                            return Err(RollerError::EvalError(s_empty_body()));
                        }
                        if depth == 0 {
                            proof {
                                if mincond {
                                    assert(run(calls0, rets0, envm, fueln) == Err::<
                                        Seq<ExprV>,
                                        ErrV,
                                    >(ErrV::Eval(msg_depth())));
                                }
                            }
                            return Err(RollerError::EvalError(s_depth()));
                        }
                        let snapshot = match env.closure(ctx) {
                            Ok(c) => c,
                            Err(_) => { return Err(RollerError::OtherError) },
                        };
                        let mut new_env = HashMapEnvironment::from_context_and_initial_values(
                            ctx,
                            snapshot,
                        );
                        let ghost benv = bind_args(envm, paramsv, valsv);
                        let mut k: usize = 0;
                        while k < params.len()
                            invariant
                                k <= params.len(),
                                new_env.inv(),
                                new_env.closure_total(),
                                stack.calls() == calls0.drop_last(),
                                stack.rets() == rets0.subrange(0, rets0.len() - 1 - k),
                                mincond ==> scope_of(new_env.scopes(), ctx.user_key())
                                    == bind_args(
                                    envm,
                                    paramsv.subrange(0, k as int),
                                    valsv.subrange(0, k as int),
                                ),
                            decreases params.len() - k,
                        {
                            let argv = match stack.pop_return() {
                                Ok(v) => v,
                                Err(_) => { return Err(RollerError::EvalError(s_no_result())) },
                            };
                            proof {
                                assert(argv.view() == valsv[k as int]);
                                assert(stack.rets() =~= rets0.subrange(
                                    0,
                                    rets0.len() - 1 - (k + 1),
                                ));
                            }
                            new_env.set(ctx, params[k].as_str(), &argv);
                            proof {
                                if mincond {
                                    lemma_bind_args_push(
                                        envm,
                                        paramsv.subrange(0, k as int),
                                        valsv.subrange(0, k as int),
                                        paramsv[k as int],
                                        valsv[k as int],
                                    );
                                    assert(paramsv.subrange(0, k + 1 as int)
                                        =~= paramsv.subrange(0, k as int).push(
                                        paramsv[k as int],
                                    ));
                                    assert(valsv.subrange(0, k + 1 as int) =~= valsv.subrange(
                                        0,
                                        k as int,
                                    ).push(valsv[k as int]));
                                }
                            }
                            k = k + 1;
                        }
                        proof {
                            assert(paramsv.subrange(0, paramsv.len() as int) =~= paramsv);
                            assert(valsv.subrange(0, valsv.len() as int) =~= valsv);
                        }
                        let mut result: Option<Expression> = None;
                        let mut bi: usize = 0;
                        while bi < body.len()
                            invariant
                                bi <= body.len(),
                                bi > 0 ==> result is Some,
                                new_env.inv(),
                                stack.calls() == calls0.drop_last(),
                                stack.rets() == rets0.subrange(0, rets0.len() - 1 - n),
                                mincond ==> rng.always_min() && (bi > 0
                                    ==> (result matches Some(res) && min_eval_body(
                                    bodyv.subrange(0, bi as int),
                                    benv,
                                    (depth - 1) as nat,
                                ) == Ok::<ExprV, ErrV>(res.view()))),
                            decreases body.len() - bi,
                        {
                            match eval_expression_at(rng, &new_env, ctx, &body[bi], depth - 1) {
                                Ok(v) => {
                                    proof {
                                        if mincond {
                                            lemma_body_step(bodyv, bi as int, benv, (depth - 1) as nat);
                                        }
                                    }
                                    result = Some(v);
                                },
                                Err(er) => {
                                    proof {
                                        if mincond {
                                            lemma_body_step(bodyv, bi as int, benv, (depth - 1) as nat);
                                            lemma_body_err(
                                                bodyv,
                                                bi as int + 1,
                                                benv,
                                                (depth - 1) as nat,
                                            );
                                            assert(min_eval_body(bodyv, benv, (fueln - 1) as nat)
                                                == Err::<ExprV, ErrV>(er.view()));
                                            assert(min_finish_call(tv, valsv, envm, fueln)
                                                == Err::<ExprV, ErrV>(er.view()));
                                            assert(run(calls0, rets0, envm, fueln) == Err::<
                                                Seq<ExprV>,
                                                ErrV,
                                            >(er.view()));
                                        }
                                    }
                                    return Err(er);
                                },
                            }
                            bi = bi + 1;
                        }
                        let out = match result {
                            Some(v) => v,
                            None => { return Err(RollerError::EvalError(s_no_result())) },
                        };
                        proof {
                            assert(bodyv.subrange(0, bodyv.len() as int) =~= bodyv);
                        }
                        stack.push_return(out);
                        proof {
                            if mincond {
                                assert(min_eval_body(bodyv, benv, (fueln - 1) as nat) == Ok::<
                                    ExprV,
                                    ErrV,
                                >(out.view()));
                                assert(min_finish_call(tv, valsv, envm, fueln) == Ok::<
                                    ExprV,
                                    ErrV,
                                >(out.view()));
                                assert(stack.rets() =~= rets0.subrange(
                                    0,
                                    rets0.len() - 1 - n,
                                ).push(out.view()));
                                assert(run(calls0, rets0, envm, fueln) == run(
                                    stack.calls(),
                                    stack.rets(),
                                    envm,
                                    fueln,
                                ));
                            }
                        }
                    },
                    _ => {
                        proof {
                            if mincond {
                                assert(!(tv is Template));
                                assert(min_finish_call(tv, valsv, envm, fueln) == Err::<
                                    ExprV,
                                    ErrV,
                                >(ErrV::Eval(msg_not_callable())));
                                assert(run(calls0, rets0, envm, fueln) == Err::<
                                    Seq<ExprV>,
                                    ErrV,
                                >(ErrV::Eval(msg_not_callable())));
                            }
                        }
                        return Err(RollerError::EvalError(s_not_callable()));
                    },
                }
            },
        }
        proof {
            if mincond {
                assert(run(calls0, rets0, envm, fueln) == run(
                    stack.calls(),
                    stack.rets(),
                    envm,
                    fueln,
                ));
            }
            assert(weight_seq(stack.calls()) < weight_seq(calls0));
        }
    }
    proof {
        if mincond {
            assert(run(stack.calls(), stack.rets(), envm, fueln) == Ok::<Seq<ExprV>, ErrV>(
                stack.rets(),
            ));
        }
    }
    if stack.size_return() != 1 {
        return Err(RollerError::EvalError(s_no_result()));
    }
    let ghost rets_fin = stack.rets();
    match stack.pop_return() {
        Ok(result) => {
            proof {
                if mincond {
                    match min_eval(expr.view(), envm, fueln) {
                        Ok(v) => {
                            assert(expected == Ok::<Seq<ExprV>, ErrV>(seq![v]));
                            assert(rets_fin == seq![v]);
                            assert(result.view() == rets_fin.last());
                            assert(result.view() == v);
                        },
                        Err(_) => {},
                    }
                }
            }
            Ok(result)
        },
        Err(_) => Err(RollerError::EvalError(s_no_result())),
    }
}

/// One body step: evaluating the prefix one longer reduces to the prefix
/// then the next expression.
pub proof fn lemma_body_step(body: Seq<ExprV>, i: int, env: Map<Seq<char>, ExprV>, fuel: nat)
    requires
        0 <= i < body.len(),
    ensures
        min_eval_body(body.subrange(0, i + 1), env, fuel) == (if i == 0 {
            min_eval(body[0], env, fuel)
        } else {
            match min_eval_body(body.subrange(0, i), env, fuel) {
                Err(er) => Err(er),
                Ok(_) => min_eval(body[i], env, fuel),
            }
        }),
{
    let s1 = body.subrange(0, i + 1);
    assert(s1.drop_last() =~= body.subrange(0, i));
    assert(s1.last() == body[i]);
    if i == 0 {
        assert(s1.len() == 1);
    }
}

/// A failing prefix fails the whole body.
pub proof fn lemma_body_err(body: Seq<ExprV>, i: int, env: Map<Seq<char>, ExprV>, fuel: nat)
    requires
        0 < i <= body.len(),
        min_eval_body(body.subrange(0, i), env, fuel) is Err,
    ensures
        min_eval_body(body, env, fuel) == min_eval_body(body.subrange(0, i), env, fuel),
    decreases body.len() - i,
{
    if i == body.len() {
        assert(body.subrange(0, i) =~= body);
    } else {
        lemma_body_step(body, i, env, fuel);
        lemma_body_err(body, i + 1, env, fuel);
    }
}

/// Renders the message of an evaluation that left no single result.
fn s_no_result() -> (r: String)
    ensures
        r@ == msg_no_result(),
{
    String::from_str("evaluation did not produce a result")
}

fn s_overflow() -> (r: String)
    ensures
        r@ == msg_overflow(),
{
    String::from_str("integer overflow")
}

fn s_type_mismatch() -> (r: String)
    ensures
        r@ == msg_type_mismatch(),
{
    String::from_str("type mismatch in operands")
}

fn s_bad_dice() -> (r: String)
    ensures
        r@ == msg_bad_dice(),
{
    String::from_str("invalid dice roll")
}

fn s_arity() -> (r: String)
    ensures
        r@ == msg_arity(),
{
    String::from_str("wrong number of arguments for dice roll template")
}

fn s_empty_body() -> (r: String)
    ensures
        r@ == msg_empty_body(),
{
    String::from_str("missing body for dice roll template")
}

fn s_depth() -> (r: String)
    ensures
        r@ == msg_depth(),
{
    String::from_str("dice roll template calls nested too deeply")
}

fn s_not_callable() -> (r: String)
    ensures
        r@ == msg_not_callable(),
{
    String::from_str("not callable")
}

/// Evaluates `expr` with the standard template-call depth allowance.
pub fn eval_expression<R: RollSource, E: Environment, C: Context>(
    rng: &mut R,
    env: &E,
    ctx: &C,
    expr: &Expression,
) -> (r: Result<Expression, RollerError>)
    requires
        env.inv(),
    ensures
        old(rng).always_min() && env.closure_total() ==> final(rng).always_min() && res_view(r)
            == min_eval(
            expr.view(),
            scope_of(env.scopes(), ctx.user_key()),
            MAX_CALL_DEPTH as nat,
        ),
{
    eval_expression_at(rng, env, ctx, expr, MAX_CALL_DEPTH)
}

/// The help text shown for `!help`.
pub open spec fn help_text() -> Seq<char> {
    "Commands: !roll <expression>, !set <name> <expression>, !print-env, !help. An expression is an integer, a {name} variable reference, an XdY dice roll, a sum or difference of those, or an (a, b) => ( {a}d6 + {b} ) template."@
}

/// The text a successful `!set` answers with.
pub open spec fn set_msg(name: Seq<char>, v: ExprV) -> Seq<char> {
    "\""@ + name + "\" => "@ + crate::render::render_expr(v)
}

/// The view of a string-or-error result.
pub open spec fn str_res_view(r: Result<String, RollerError>) -> Result<Seq<char>, ErrV> {
    match r {
        Ok(s) => Ok(s@),
        Err(er) => Err(er.view()),
    }
}

/// Statement evaluation with every die at its minimum: the answer text and
/// the bindings left under the caller's key.  `PrintEnv` is not modelled
/// here; its output is only promised to be non-empty.
pub open spec fn min_eval_stmt(st: StmtV, env: Map<Seq<char>, ExprV>, fuel: nat) -> (Result<
    Seq<char>,
    ErrV,
>, Map<Seq<char>, ExprV>) {
    match st {
        StmtV::Help => (Ok(help_text()), env),
        StmtV::PrintEnv => (Ok(Seq::empty()), env),
        StmtV::Roll(e) => match min_eval(e, env, fuel) {
            Ok(v) => match v {
                ExprV::Integer(i) => (Ok(dec_str(i as int)), env),
                _ => (Err(ErrV::Eval(msg_type_mismatch())), env),
            },
            Err(er) => (Err(er), env),
        },
        StmtV::SetValue(name, e) => match min_eval(e, env, fuel) {
            Ok(v) => (Ok(set_msg(name, v)), env.insert(name, v)),
            Err(er) => (Err(er), env),
        },
    }
}

/// Evaluates one statement: `!help` answers with the help text, `!print-env`
/// renders the caller's bindings, `!roll` answers with the rolled integer,
/// and `!set` evaluates, stores and echoes the bound value.
pub fn eval_statement<R: RollSource, E: Environment, C: Context>(
    rng: &mut R,
    env: &mut E,
    ctx: &C,
    stmt: &Statement,
) -> (r: Result<String, RollerError>)
    requires
        old(env).inv(),
    ensures
        final(env).inv(),
        final(env).closure_total() == old(env).closure_total(),
        !(stmt is SetValue) ==> final(env).scopes() == old(env).scopes(),
        stmt is PrintEnv ==> (r matches Ok(s) && s@.len() > 0),
        old(rng).always_min() && old(env).closure_total() && !(stmt is PrintEnv)
            ==> final(rng).always_min() && ({
            let out = min_eval_stmt(
                stmt.view(),
                scope_of(old(env).scopes(), ctx.user_key()),
                MAX_CALL_DEPTH as nat,
            );
            str_res_view(r) == out.0 && final(env).scopes() == (if stmt is SetValue && r is Ok {
                old(env).scopes().insert(ctx.user_key(), out.1)
            } else {
                old(env).scopes()
            })
        }),
{
    match stmt {
        Statement::Help => Ok(help_string()),
        Statement::PrintEnv => Ok(env.print(ctx)),
        Statement::Roll(e) => match eval_expression(rng, env, ctx, e) {
            Ok(value) => match value {
                Expression::Integer(v) => Ok(crate::decimal::format_i64(v)),
                _ => Err(RollerError::EvalError(s_type_mismatch())),
            },
            Err(er) => Err(er),
        },
        Statement::SetValue(name, e) => match eval_expression(rng, env, ctx, e) {
            Ok(value) => {
                let mut msg = String::from_str("\"");
                msg.append(name.as_str());
                msg.append("\" => ");
                let rendered = crate::render::render_expression(&value);
                msg.append(rendered.as_str());
                env.set(ctx, name.as_str(), &value);
                Ok(msg)
            },
            Err(er) => Err(er),
        },
    }
}

/// Renders the help text.
fn help_string() -> (r: String)
    ensures
        r@ == help_text(),
{
    String::from_str(
        "Commands: !roll <expression>, !set <name> <expression>, !print-env, !help. An expression is an integer, a {name} variable reference, an XdY dice roll, a sum or difference of those, or an (a, b) => ( {a}d6 + {b} ) template.",
    )
}

/// The evaluator bundled with its roll source, environment and context, as
/// front-ends hold it while walking one statement.
pub struct EvalVisitor<R: RollSource, E: Environment, C: Context> {
    rng: R,
    env: E,
    ctx: C,
}

impl<R: RollSource, E: Environment, C: Context> EvalVisitor<R, E, C> {
    /// The held environment's validity.
    pub closed spec fn env_inv(&self) -> bool {
        self.env.inv()
    }

    /// The held environment's bindings.
    pub closed spec fn scopes(&self) -> Map<Seq<char>, Map<Seq<char>, ExprV>> {
        self.env.scopes()
    }

    /// The held context's user key.
    pub closed spec fn ctx_key(&self) -> Seq<char> {
        self.ctx.user_key()
    }

    /// True when every die of the held source lands on 1.
    pub closed spec fn min_source(&self) -> bool {
        self.rng.always_min()
    }

    /// True when the held environment's snapshots cannot fail.
    pub closed spec fn snapshots_total(&self) -> bool {
        self.env.closure_total()
    }

    /// An evaluator over the given parts.
    pub fn new(rng: R, env: E, ctx: C) -> (r: EvalVisitor<R, E, C>)
        requires
            env.inv(),
        ensures
            r.env_inv(),
            r.scopes() == env.scopes(),
            r.ctx_key() == ctx.user_key(),
            r.min_source() == rng.always_min(),
            r.snapshots_total() == env.closure_total(),
    {
        EvalVisitor { rng, env, ctx }
    }

    /// Evaluates one expression to a value (see [`eval_expression`]).
    pub fn visit_expression(&mut self, expr: &Expression) -> (r: Result<Expression, RollerError>)
        requires
            old(self).env_inv(),
        ensures
            final(self).env_inv(),
            final(self).scopes() == old(self).scopes(),
            final(self).ctx_key() == old(self).ctx_key(),
            final(self).snapshots_total() == old(self).snapshots_total(),
            old(self).min_source() && old(self).snapshots_total() ==> final(self).min_source()
                && res_view(r) == min_eval(
                expr.view(),
                scope_of(old(self).scopes(), old(self).ctx_key()),
                MAX_CALL_DEPTH as nat,
            ),
    {
        eval_expression(&mut self.rng, &self.env, &self.ctx, expr)
    }

    /// Evaluates one statement to its answer text (see [`eval_statement`]).
    pub fn visit_statement(&mut self, stmt: &Statement) -> (r: Result<String, RollerError>)
        requires
            old(self).env_inv(),
        ensures
            final(self).env_inv(),
            final(self).ctx_key() == old(self).ctx_key(),
            final(self).snapshots_total() == old(self).snapshots_total(),
            !(stmt is SetValue) ==> final(self).scopes() == old(self).scopes(),
            stmt is PrintEnv ==> (r matches Ok(s) && s@.len() > 0),
            old(self).min_source() && old(self).snapshots_total() && !(stmt is PrintEnv)
                ==> final(self).min_source() && ({
                let out = min_eval_stmt(
                    stmt.view(),
                    scope_of(old(self).scopes(), old(self).ctx_key()),
                    MAX_CALL_DEPTH as nat,
                );
                str_res_view(r) == out.0 && final(self).scopes() == (if stmt is SetValue && r
                    is Ok {
                    old(self).scopes().insert(old(self).ctx_key(), out.1)
                } else {
                    old(self).scopes()
                })
            }),
    {
        eval_statement(&mut self.rng, &mut self.env, &self.ctx, stmt)
    }
}

/// The children a composite expression schedules are its viewed children.
pub proof fn lemma_view_seq_is_kids(children: Seq<Expression>, e: ExprV)
    requires
        is_composite(e),
        children.len() == kids(e).len(),
        forall|j: int|
            0 <= j < children.len() ==> (#[trigger] children[j].view()) == kids(e)[j],
    ensures
        crate::types::view_seq(children) =~= kids(e),
{
    crate::types::lemma_view_seq(children);
    assert forall|j: int| 0 <= j < children.len() implies crate::types::view_seq(children)[j]
        == kids(e)[j] by {
        assert(crate::types::view_seq(children)[j] == children[j].view());
    }
}

} // verus!
