//! Rendering of expression values back to text, in the constructor-like
//! shape users see after `!set`.
use crate::decimal::{dec_str, format_i64};
use crate::types::{ExprV, Expression, Op};
use vstd::prelude::*;
use vstd::string::StringExecFns;

verus! {

/// The rendering of an operator.
pub open spec fn render_op(op: Op) -> Seq<char> {
    match op {
        Op::Add => "Add"@,
        Op::Subtract => "Subtract"@,
    }
}

/// The rendering of an expression.
pub open spec fn render_expr(e: ExprV) -> Seq<char>
    decreases e,
{
    match e {
        ExprV::Integer(n) => "Integer("@ + dec_str(n as int) + ")"@,
        ExprV::Variable(name) => "Variable(\""@ + name + "\")"@,
        ExprV::Term(l, r, op) => "Term("@ + render_expr(*l) + ", "@ + render_expr(*r) + ", "@
            + render_op(op) + ")"@,
        ExprV::Dice { count, sides } => "DiceRoll { count: "@ + render_expr(*count) + ", sides: "@
            + render_expr(*sides) + " }"@,
        ExprV::Template { args, body } => "DiceRollTemplate { args: ["@ + render_names(args)
            + "], expressions: ["@ + render_list(body) + "] }"@,
        ExprV::Call { target, args } => "DiceRollTemplateCall { template_expression: "@
            + render_expr(*target) + ", args: ["@ + render_list(args) + "] }"@,
    }
}

/// The comma-joined rendering of a list of expressions.
pub open spec fn render_list(l: Seq<ExprV>) -> Seq<char>
    decreases l,
{
    if l.len() == 0 {
        Seq::empty()
    } else if l.len() == 1 {
        render_expr(l.last())
    } else {
        render_list(l.drop_last()) + ", "@ + render_expr(l.last())
    }
}

/// The comma-joined rendering of quoted names.
pub open spec fn render_names(names: Seq<Seq<char>>) -> Seq<char>
    decreases names.len(),
{
    if names.len() == 0 {
        Seq::empty()
    } else if names.len() == 1 {
        "\""@ + names.last() + "\""@
    } else {
        render_names(names.drop_last()) + ", "@ + "\""@ + names.last() + "\""@
    }
}

/// Renders an expression value (see [`render_expr`]).
#[verifier::loop_isolation(false)]
pub fn render_expression(e: &Expression) -> (r: String)
    ensures
        r@ == render_expr(e.view()),
    decreases e,
{
    match e {
        Expression::Integer(n) => {
            let mut s = String::from_str("Integer(");
            let num = format_i64(*n);
            s.append(num.as_str());
            s.append(")");
            s
        },
        Expression::Variable(name) => {
            let mut s = String::from_str("Variable(\"");
            s.append(name.as_str());
            s.append("\")");
            s
        },
        Expression::Term(l, r, op) => {
            let mut s = String::from_str("Term(");
            let ls = render_expression(l);
            s.append(ls.as_str());
            s.append(", ");
            let rs = render_expression(r);
            s.append(rs.as_str());
            s.append(", ");
            match op {
                Op::Add => s.append("Add"),
                Op::Subtract => s.append("Subtract"),
            }
            s.append(")");
            s
        },
        Expression::DiceRoll { count, sides } => {
            let mut s = String::from_str("DiceRoll { count: ");
            let cs = render_expression(count);
            s.append(cs.as_str());
            s.append(", sides: ");
            let ss = render_expression(sides);
            s.append(ss.as_str());
            s.append(" }");
            s
        },
        Expression::DiceRollTemplate { args, expressions } => {
            let mut s = String::from_str("DiceRollTemplate { args: [");
            let ghost names = args@.map_values(|t: String| t@);
            let mut i: usize = 0;
            while i < args.len()
                invariant
                    i <= args.len(),
                    s@ == "DiceRollTemplate { args: ["@ + render_names(
                        names.subrange(0, i as int),
                    ),
                decreases args.len() - i,
            {
                if i > 0 {
                    s.append(", ");
                }
                s.append("\"");
                s.append(args[i].as_str());
                s.append("\"");
                proof {
                    let sub1 = names.subrange(0, i + 1 as int);
                    assert(sub1.drop_last() =~= names.subrange(0, i as int));
                    assert(sub1.last() == names[i as int]);
                    assert(s@ == "DiceRollTemplate { args: ["@ + render_names(sub1));
                }
                i = i + 1;
            }
            proof {
                assert(names.subrange(0, names.len() as int) =~= names);
            }
            s.append("], expressions: [");
            let ghost body = crate::types::view_seq(expressions@);
            proof {
                crate::types::lemma_view_seq(expressions@);
            }
            let mut k: usize = 0;
            while k < expressions.len()
                invariant
                    k <= expressions.len(),
                    s@ == "DiceRollTemplate { args: ["@ + render_names(names)
                        + "], expressions: ["@ + render_list(body.subrange(0, k as int)),
                decreases expressions.len() - k,
            {
                if k > 0 {
                    s.append(", ");
                }
                let es = render_expression(&expressions[k]);
                s.append(es.as_str());
                proof {
                    let sub1 = body.subrange(0, k + 1 as int);
                    assert(sub1.drop_last() =~= body.subrange(0, k as int));
                    assert(sub1.last() == body[k as int]);
                }
                k = k + 1;
            }
            proof {
                assert(body.subrange(0, body.len() as int) =~= body);
            }
            s.append("] }");
            s
        },
        Expression::DiceRollTemplateCall { template_expression, args } => {
            let mut s = String::from_str("DiceRollTemplateCall { template_expression: ");
            let ts = render_expression(template_expression);
            s.append(ts.as_str());
            s.append(", args: [");
            let ghost argv = crate::types::view_seq(args@);
            proof {
                crate::types::lemma_view_seq(args@);
            }
            let mut k: usize = 0;
            while k < args.len()
                invariant
                    k <= args.len(),
                    s@ == "DiceRollTemplateCall { template_expression: "@ + render_expr(
                        template_expression.view(),
                    ) + ", args: ["@ + render_list(argv.subrange(0, k as int)),
                decreases args.len() - k,
            {
                if k > 0 {
                    s.append(", ");
                }
                let es = render_expression(&args[k]);
                s.append(es.as_str());
                proof {
                    let sub1 = argv.subrange(0, k + 1 as int);
                    assert(sub1.drop_last() =~= argv.subrange(0, k as int));
                    assert(sub1.last() == argv[k as int]);
                }
                k = k + 1;
            }
            proof {
                assert(argv.subrange(0, argv.len() as int) =~= argv);
            }
            s.append("] }");
            s
        },
    }
}

} // verus!
