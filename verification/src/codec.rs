//! The storage form of expressions: a canonical text encoding with
//! `expression_type` / `op_type` discriminators and an `expression` payload
//! field, as the persistent store writes and reads it.
//!
//! `serialize_expression` emits exactly the canonical encoding (`ser_expr`)
//! and `deserialize_expression` reads it back (`d_expr`).  The two are
//! inverse: anything decoded re-serializes to the very input text, and
//! decoding an encoding always finds the encoded value
//! (`lemma_encoding_round_trip`) — so reading back a stored value yields
//! exactly the value that was written.
use crate::decimal::{dec_digits, dec_str, digit_val, is_digit_char, seq_val};
use crate::types::{ExprV, Expression, Op};
use vstd::prelude::*;
use vstd::string::StringExecFns;

verus! {

/// The encoding of an operator.
pub open spec fn ser_op(op: Op) -> Seq<char> {
    match op {
        Op::Add => "{\"op_type\":\"add\"}"@,
        Op::Subtract => "{\"op_type\":\"subtract\"}"@,
    }
}

/// A name with `\` and `"` escaped.
pub open spec fn esc(s: Seq<char>) -> Seq<char>
    decreases s.len(),
{
    if s.len() == 0 {
        Seq::empty()
    } else {
        esc(s.drop_last()) + esc_char(s.last())
    }
}

/// The escape of one character.
pub open spec fn esc_char(c: char) -> Seq<char> {
    if c == '\\' {
        seq!['\\', '\\']
    } else if c == '"' {
        seq!['\\', '"']
    } else {
        seq![c]
    }
}

/// A quoted, escaped string.
pub open spec fn ser_str(s: Seq<char>) -> Seq<char> {
    "\""@ + esc(s) + "\""@
}

/// The canonical encoding of an expression.
pub open spec fn ser_expr(e: ExprV) -> Seq<char>
    decreases e,
{
    match e {
        ExprV::Integer(n) => "{\"expression_type\":\"integer\",\"expression\":"@ + dec_str(n as int)
            + "}"@,
        ExprV::Variable(name) => "{\"expression_type\":\"variable\",\"expression\":"@ + ser_str(
            name,
        ) + "}"@,
        ExprV::Term(l, r, op) => "{\"expression_type\":\"term\",\"expression\":["@ + ser_expr(*l)
            + ","@ + ser_expr(*r) + ","@ + ser_op(op) + "]}"@,
        ExprV::Dice { count, sides } => "{\"expression_type\":\"dice_roll\",\"expression\":{\"count\":"@
            + ser_expr(*count) + ",\"sides\":"@ + ser_expr(*sides) + "}}"@,
        ExprV::Template { args, body } => "{\"expression_type\":\"dice_roll_template\",\"expression\":{\"args\":["@
            + ser_names(args) + "],\"expressions\":["@ + ser_list(body) + "]}}"@,
        ExprV::Call { target, args } => "{\"expression_type\":\"dice_roll_template_call\",\"expression\":{\"template_expression\":"@
            + ser_expr(*target) + ",\"args\":["@ + ser_list(args) + "]}}"@,
    }
}

/// The comma-joined encodings of a list of expressions.
pub open spec fn ser_list(l: Seq<ExprV>) -> Seq<char>
    decreases l,
{
    if l.len() == 0 {
        Seq::empty()
    } else if l.len() == 1 {
        ser_expr(l.last())
    } else {
        ser_list(l.drop_last()) + ","@ + ser_expr(l.last())
    }
}

/// The comma-joined encodings of a list of names.
pub open spec fn ser_names(names: Seq<Seq<char>>) -> Seq<char>
    decreases names.len(),
{
    if names.len() == 0 {
        Seq::empty()
    } else if names.len() == 1 {
        ser_str(names.last())
    } else {
        ser_names(names.drop_last()) + ","@ + ser_str(names.last())
    }
}

/// Encodes an expression canonically (see [`ser_expr`]).
#[verifier::loop_isolation(false)]
pub fn serialize_expression(e: &Expression) -> (r: String)
    ensures
        r@ == ser_expr(e.view()),
    decreases e,
{
    match e {
        Expression::Integer(n) => {
            let mut s = String::from_str("{\"expression_type\":\"integer\",\"expression\":");
            let num = crate::decimal::format_i64(*n);
            s.append(num.as_str());
            s.append("}");
            s
        },
        Expression::Variable(name) => {
            let mut s = String::from_str("{\"expression_type\":\"variable\",\"expression\":");
            let quoted = escape_string(name);
            s.append(quoted.as_str());
            s.append("}");
            s
        },
        Expression::Term(l, r, op) => {
            let mut s = String::from_str("{\"expression_type\":\"term\",\"expression\":[");
            let ls = serialize_expression(l);
            s.append(ls.as_str());
            s.append(",");
            let rs = serialize_expression(r);
            s.append(rs.as_str());
            s.append(",");
            match op {
                Op::Add => s.append("{\"op_type\":\"add\"}"),
                Op::Subtract => s.append("{\"op_type\":\"subtract\"}"),
            }
            s.append("]}");
            s
        },
        Expression::DiceRoll { count, sides } => {
            let mut s = String::from_str(
                "{\"expression_type\":\"dice_roll\",\"expression\":{\"count\":",
            );
            let cs = serialize_expression(count);
            s.append(cs.as_str());
            s.append(",\"sides\":");
            let ss = serialize_expression(sides);
            s.append(ss.as_str());
            s.append("}}");
            s
        },
        Expression::DiceRollTemplate { args, expressions } => {
            let mut s = String::from_str(
                "{\"expression_type\":\"dice_roll_template\",\"expression\":{\"args\":[",
            );
            let ghost names = args@.map_values(|t: String| t@);
            let mut i: usize = 0;
            while i < args.len()
                invariant
                    i <= args.len(),
                    s@ == "{\"expression_type\":\"dice_roll_template\",\"expression\":{\"args\":["@
                        + ser_names(names.subrange(0, i as int)),
                decreases args.len() - i,
            {
                if i > 0 {
                    s.append(",");
                }
                let quoted = escape_string(&args[i]);
                s.append(quoted.as_str());
                proof {
                    let sub1 = names.subrange(0, i + 1 as int);
                    assert(sub1.drop_last() =~= names.subrange(0, i as int));
                    assert(sub1.last() == names[i as int]);
                }
                i = i + 1;
            }
            proof {
                assert(names.subrange(0, names.len() as int) =~= names);
            }
            s.append("],\"expressions\":[");
            let ghost body = crate::types::view_seq(expressions@);
            proof {
                crate::types::lemma_view_seq(expressions@);
            }
            let mut k: usize = 0;
            while k < expressions.len()
                invariant
                    k <= expressions.len(),
                    s@ == "{\"expression_type\":\"dice_roll_template\",\"expression\":{\"args\":["@
                        + ser_names(names) + "],\"expressions\":["@ + ser_list(
                        body.subrange(0, k as int),
                    ),
                decreases expressions.len() - k,
            {
                if k > 0 {
                    s.append(",");
                }
                let es = serialize_expression(&expressions[k]);
                s.append(es.as_str());
                proof {
                    let sub1 = body.subrange(0, k + 1 as int);
                    assert(sub1.drop_last() =~= body.subrange(0, k as int));
                    assert(sub1.last() == body[k as int]);
                }
                k = k + 1;
            }
            proof {
                assert(body.subrange(0, body.len() as int) =~= body);
            }
            s.append("]}}");
            s
        },
        Expression::DiceRollTemplateCall { template_expression, args } => {
            let mut s = String::from_str(
                "{\"expression_type\":\"dice_roll_template_call\",\"expression\":{\"template_expression\":",
            );
            let ts = serialize_expression(template_expression);
            s.append(ts.as_str());
            s.append(",\"args\":[");
            let ghost argv = crate::types::view_seq(args@);
            proof {
                crate::types::lemma_view_seq(args@);
            }
            let mut k: usize = 0;
            while k < args.len()
                invariant
                    k <= args.len(),
                    s@ == "{\"expression_type\":\"dice_roll_template_call\",\"expression\":{\"template_expression\":"@
                        + ser_expr(template_expression.view()) + ",\"args\":["@ + ser_list(
                        argv.subrange(0, k as int),
                    ),
                decreases args.len() - k,
            {
                if k > 0 {
                    s.append(",");
                }
                let es = serialize_expression(&args[k]);
                s.append(es.as_str());
                proof {
                    let sub1 = argv.subrange(0, k + 1 as int);
                    assert(sub1.drop_last() =~= argv.subrange(0, k as int));
                    assert(sub1.last() == argv[k as int]);
                }
                k = k + 1;
            }
            proof {
                assert(argv.subrange(0, argv.len() as int) =~= argv);
            }
            s.append("]}}");
            s
        },
    }
}

/// The model of reading a canonical decimal integer at `i`: an optional
/// minus sign, then digits with no leading zero, no `-0`, within the 64-bit
/// signed range.
pub open spec fn d_int(s: Seq<char>, i: int) -> Option<(int, int)> {
    let neg = 0 <= i < s.len() && s[i] == '-';
    let start = if neg {
        i + 1
    } else {
        i
    };
    if 0 <= start < s.len() && is_digit_char(s[start]) {
        let j = crate::parser::digits_end(s, start);
        let m = seq_val(s.subrange(start, j));
        if (j - start > 1 && s[start] == '0') || (neg && m == 0) || m > (if neg {
            0x8000000000000000int
        } else {
            0x7fffffffffffffffint
        }) {
            None
        } else {
            Some((j, if neg {
                -m
            } else {
                m
            }))
        }
    } else {
        None
    }
}

/// The model of reading the escaped body and closing quote of a string
/// from `j`: the position after the closing quote and the name read.
pub open spec fn d_str_body(s: Seq<char>, j: int) -> Option<(int, Seq<char>)>
    decreases s.len() - j,
{
    if !(0 <= j < s.len()) {
        None
    } else if s[j] == '"' {
        Some((j + 1, Seq::empty()))
    } else if s[j] == '\\' {
        if j + 1 < s.len() && (s[j + 1] == '\\' || s[j + 1] == '"') {
            match d_str_body(s, j + 2) {
                Some((e, rest)) => Some((e, seq![s[j + 1]] + rest)),
                None => None,
            }
        } else {
            None
        }
    } else {
        match d_str_body(s, j + 1) {
            Some((e, rest)) => Some((e, seq![s[j]] + rest)),
            None => None,
        }
    }
}

/// The model of reading a quoted, escaped name at `i`.
pub open spec fn d_str(s: Seq<char>, i: int) -> Option<(int, Seq<char>)> {
    if 0 <= i < s.len() && s[i] == '"' {
        d_str_body(s, i + 1)
    } else {
        None
    }
}

/// The model of reading an operator object at `i`.
pub open spec fn d_op(s: Seq<char>, i: int) -> Option<(int, Op)> {
    if crate::parser::has_tag(s, i, "{\"op_type\":\"add\"}"@) {
        Some((i + "{\"op_type\":\"add\"}"@.len(), Op::Add))
    } else if crate::parser::has_tag(s, i, "{\"op_type\":\"subtract\"}"@) {
        Some((i + "{\"op_type\":\"subtract\"}"@.len(), Op::Subtract))
    } else {
        None
    }
}

/// The model of reading one canonically encoded expression at `i`.
pub open spec fn d_expr(s: Seq<char>, i: int) -> Option<(int, ExprV)>
    decreases s.len() - i, 0int,
{
    let p_int = "{\"expression_type\":\"integer\",\"expression\":"@;
    let p_var = "{\"expression_type\":\"variable\",\"expression\":"@;
    let p_term = "{\"expression_type\":\"term\",\"expression\":["@;
    let p_dice = "{\"expression_type\":\"dice_roll\",\"expression\":{\"count\":"@;
    let p_tpl = "{\"expression_type\":\"dice_roll_template\",\"expression\":{\"args\":["@;
    let p_call =
        "{\"expression_type\":\"dice_roll_template_call\",\"expression\":{\"template_expression\":"@;
    if crate::parser::has_tag(s, i, p_int) {
        match d_int(s, i + p_int.len()) {
            Some((j1, v)) => if crate::parser::has_tag(s, j1, "}"@) {
                Some((j1 + 1, ExprV::Integer(v as i64)))
            } else {
                None
            },
            None => None,
        }
    } else if crate::parser::has_tag(s, i, p_var) {
        match d_str(s, i + p_var.len()) {
            Some((j1, name)) => if crate::parser::has_tag(s, j1, "}"@) {
                Some((j1 + 1, ExprV::Variable(name)))
            } else {
                None
            },
            None => None,
        }
    } else if crate::parser::has_tag(s, i, p_term) {
        if i + p_term.len() <= s.len() && i < i + p_term.len() {
            match d_expr(s, i + p_term.len()) {
                Some((j1, l)) => if crate::parser::has_tag(s, j1, ","@) && i < j1 + 1 && j1 + 1
                    <= s.len() {
                    match d_expr(s, j1 + 1) {
                        Some((j3, r)) => if crate::parser::has_tag(s, j3, ","@) {
                            match d_op(s, j3 + 1) {
                                Some((j5, op)) => if crate::parser::has_tag(s, j5, "]}"@) {
                                    Some((j5 + 2, ExprV::Term(Box::new(l), Box::new(r), op)))
                                } else {
                                    None
                                },
                                None => None,
                            }
                        } else {
                            None
                        },
                        None => None,
                    }
                } else {
                    None
                },
                None => None,
            }
        } else {
            None
        }
    } else if crate::parser::has_tag(s, i, p_dice) {
        if i + p_dice.len() <= s.len() && i < i + p_dice.len() {
            match d_expr(s, i + p_dice.len()) {
                Some((j1, c)) => if crate::parser::has_tag(s, j1, ",\"sides\":"@) && i < j1 + 9
                    && j1 + 9 <= s.len() {
                    match d_expr(s, j1 + 9) {
                        Some((j3, sd)) => if crate::parser::has_tag(s, j3, "}}"@) {
                            Some(
                                (
                                    j3 + 2,
                                    ExprV::Dice { count: Box::new(c), sides: Box::new(sd) },
                                ),
                            )
                        } else {
                            None
                        },
                        None => None,
                    }
                } else {
                    None
                },
                None => None,
            }
        } else {
            None
        }
    } else if crate::parser::has_tag(s, i, p_tpl) {
        let after = d_names(s, i + p_tpl.len());
        if crate::parser::has_tag(s, after.0, "],\"expressions\":["@) && i < after.0 + 17
            && after.0 + 17 <= s.len() {
            match d_list(s, after.0 + 17) {
                Some((j3, body)) => if crate::parser::has_tag(s, j3, "]}}"@) {
                    Some((j3 + 3, ExprV::Template { args: after.1, body }))
                } else {
                    None
                },
                None => None,
            }
        } else {
            None
        }
    } else if crate::parser::has_tag(s, i, p_call) {
        if i + p_call.len() <= s.len() && i < i + p_call.len() {
            match d_expr(s, i + p_call.len()) {
                Some((j1, t)) => if crate::parser::has_tag(s, j1, ",\"args\":["@) && i < j1 + 9
                    && j1 + 9 <= s.len() {
                    match d_list(s, j1 + 9) {
                        Some((j3, args)) => if crate::parser::has_tag(s, j3, "]}}"@) {
                            Some((j3 + 3, ExprV::Call { target: Box::new(t), args }))
                        } else {
                            None
                        },
                        None => None,
                    }
                } else {
                    None
                },
                None => None,
            }
        } else {
            None
        }
    } else {
        None
    }
}

/// The model of reading a comma-separated run of encoded expressions at
/// `i`.
pub open spec fn d_list(s: Seq<char>, i: int) -> Option<(int, Seq<ExprV>)>
    decreases s.len() - i, 1int,
{
    match d_expr(s, i) {
        Some((j, first)) => if i < j && j <= s.len() {
            Some(d_list_more(s, j, seq![first]))
        } else {
            None
        },
        None => Some((i, Seq::empty())),
    }
}

/// The model of continuing a comma-separated run of encoded expressions.
pub open spec fn d_list_more(s: Seq<char>, i: int, acc: Seq<ExprV>) -> (int, Seq<ExprV>)
    decreases s.len() - i, 0int,
{
    if 0 <= i < s.len() && s[i] == ',' && i + 1 <= s.len() {
        match d_expr(s, i + 1) {
            Some((m, e2)) => if i < m && m <= s.len() {
                d_list_more(s, m, acc.push(e2))
            } else {
                (i, acc)
            },
            None => (i, acc),
        }
    } else {
        (i, acc)
    }
}

/// The model of reading a comma-separated run of encoded names at `i`.
pub open spec fn d_names(s: Seq<char>, i: int) -> (int, Seq<Seq<char>>)
    decreases s.len() - i, 1int,
{
    match d_str(s, i) {
        Some((j, first)) => if i < j && j <= s.len() {
            d_names_more(s, j, seq![first])
        } else {
            (i, Seq::empty())
        },
        None => (i, Seq::empty()),
    }
}

/// The model of continuing a comma-separated run of encoded names.
pub open spec fn d_names_more(s: Seq<char>, i: int, acc: Seq<Seq<char>>) -> (int, Seq<Seq<char>>)
    decreases s.len() - i, 0int,
{
    if 0 <= i < s.len() && s[i] == ',' {
        match d_str(s, i + 1) {
            Some((m, name)) => if i < m && m <= s.len() {
                d_names_more(s, m, acc.push(name))
            } else {
                (i, acc)
            },
            None => (i, acc),
        }
    } else {
        (i, acc)
    }
}

/// A positive value has positive digits: a digit string without a leading
/// zero is worth at least one.
proof fn lemma_seq_val_pos(d: Seq<char>)
    requires
        d.len() >= 1,
        forall|k: int| 0 <= k < d.len() ==> is_digit_char(#[trigger] d[k]),
        d[0] != '0',
    ensures
        seq_val(d) >= 1,
    decreases d.len(),
{
    if d.len() == 1 {
        assert(d.last() == d[0]);
        assert(digit_val(d[0]) >= 1);
        assert(seq_val(d.drop_last()) == 0);
    } else {
        assert(d.drop_last()[0] == d[0]);
        lemma_seq_val_pos(d.drop_last());
        assert(digit_val(d.last()) >= 0);
    }
}

/// A digit string without a leading zero is the canonical rendering of its
/// value.
proof fn lemma_canonical_digits(d: Seq<char>)
    requires
        d.len() >= 1,
        forall|k: int| 0 <= k < d.len() ==> is_digit_char(#[trigger] d[k]),
        d.len() > 1 ==> d[0] != '0',
    ensures
        dec_digits(seq_val(d)) == d,
    decreases d.len(),
{
    let v = seq_val(d);
    if d.len() == 1 {
        assert(d.last() == d[0]);
        assert(seq_val(d.drop_last()) == 0);
        assert(v == digit_val(d[0]));
        assert(0 <= v <= 9);
        assert(crate::decimal::digit_char(v) == d[0]);
        assert(dec_digits(v) =~= d);
    } else {
        let dp = d.drop_last();
        assert(dp[0] == d[0]);
        assert(forall|k: int| 0 <= k < dp.len() ==> is_digit_char(#[trigger] dp[k]));
        lemma_canonical_digits(dp);
        lemma_seq_val_pos(dp);
        let vp = seq_val(dp);
        let dv = digit_val(d.last());
        assert(v == 10 * vp + dv);
        assert(0 <= dv <= 9);
        assert(v / 10 == vp && v % 10 == dv);
        assert(v >= 10);
        assert(dec_digits(v) == dec_digits(vp).push(crate::decimal::digit_char(dv)));
        assert(crate::decimal::digit_char(dv) == d.last());
        assert(dec_digits(v) =~= d);
    }
}

/// Consumes `t` at `i`, if present.
#[verifier::loop_isolation(false)]
fn eat(s: &Vec<char>, i: usize, t: &str) -> (r: Option<usize>)
    requires
        i <= s@.len(),
    ensures
        r matches Some(j) ==> j as int == i + t@.len() && j <= s@.len() && s@.subrange(
            i as int,
            j as int,
        ) == t@,
        r is Some <==> crate::parser::has_tag(s@, i as int, t@),
{
    let tc = crate::text::chars_of(t);
    let n = tc.len();
    if n > s.len() - i {
        return None;
    }
    let mut k: usize = 0;
    while k < n
        invariant
            k <= n,
            n == t@.len(),
            i + n <= s@.len(),
            tc@ == t@,
            forall|m: int| 0 <= m < k ==> s@[i + m] == t@[m],
        decreases n - k,
    {
        if s[i + k] != tc[k] {
            proof {
                if crate::parser::has_tag(s@, i as int, t@) {
                    assert(s@.subrange(i as int, i + n)[k as int] == t@[k as int]);
                }
            }
            return None;
        }
        k = k + 1;
    }
    proof {
        assert(s@.subrange(i as int, i + n as int) =~= t@);
    }
    Some(i + n)
}

/// Every character of a digit run is a digit.
proof fn lemma_digits_end_digits(s: Seq<char>, i: int)
    requires
        0 <= i <= s.len(),
    ensures
        i <= crate::parser::digits_end(s, i) <= s.len(),
        forall|k: int|
            i <= k < crate::parser::digits_end(s, i) ==> is_digit_char(#[trigger] s[k]),
    decreases s.len() - i,
{
    if i < s.len() && is_digit_char(s[i]) {
        lemma_digits_end_digits(s, i + 1);
    }
}

/// Reads a canonical decimal integer: an optional minus sign, then digits
/// with no leading zero, within the 64-bit signed range.
#[verifier::loop_isolation(false)]
fn de_int(s: &Vec<char>, i: usize) -> (r: Option<(usize, i64)>)
    requires
        i <= s@.len(),
    ensures
        r matches Some(p) ==> i < p.0 <= s@.len() && s@.subrange(i as int, p.0 as int) == dec_str(
            p.1 as int,
        ),
        match r {
            Some(p) => d_int(s@, i as int) == Some((p.0 as int, p.1 as int)),
            None => d_int(s@, i as int) is None,
        },
{
    let neg = i < s.len() && s[i] == '-';
    let start = if neg {
        i + 1
    } else {
        i
    };
    if start >= s.len() || !('0' <= s[start] && s[start] <= '9') {
        return None;
    }
    let limit: u64 = if neg {
        9223372036854775808u64
    } else {
        9223372036854775807u64
    };
    let mut j = start;
    let mut acc: u64 = 0;
    while j < s.len() && '0' <= s[j] && s[j] <= '9'
        invariant
            start <= j <= s@.len(),
            crate::parser::digits_end(s@, start as int) == crate::parser::digits_end(
                s@,
                j as int,
            ),
            forall|k: int| start <= k < j ==> is_digit_char(#[trigger] s@[k]),
            acc as int == seq_val(s@.subrange(start as int, j as int)),
            acc <= limit,
        decreases s@.len() - j,
    {
        let d = (s[j] as u32 - 48) as u64;
        proof {
            assert(d == digit_val(s@[j as int]));
            assert(s@.subrange(start as int, j + 1 as int).drop_last() =~= s@.subrange(
                start as int,
                j as int,
            ));
            assert(s@.subrange(start as int, j + 1 as int).last() == s@[j as int]);
        }
        if acc > (limit - d) / 10 {
            proof {
                let dend = crate::parser::digits_end(s@, start as int);
                lemma_digits_end_digits(s@, start as int);
                assert(dend == crate::parser::digits_end(s@, j as int));
                crate::parser::lemma_digits_end(s@, j as int);
                assert(dend >= j + 1);
                let full = s@.subrange(start as int, dend);
                assert(forall|k: int| 0 <= k < full.len() ==> is_digit_char(#[trigger] full[k]));
                assert(full.subrange(0, j + 1 - start) =~= s@.subrange(start as int, j + 1));
                assert(full.subrange(0, full.len() as int) =~= full);
                crate::decimal::lemma_seq_val_extend(full, j + 1 - start, full.len() as int);
                assert(seq_val(s@.subrange(start as int, j + 1)) == 10 * acc + d);
                assert(seq_val(full) >= 10 * acc + d);
                assert(10 * acc + d > limit);
            }
            return None;
        }
        acc = acc * 10 + d;
        j = j + 1;
    }
    proof {
        assert(crate::parser::digits_end(s@, j as int) == j);
        assert(crate::parser::digits_end(s@, start as int) == j);
    }
    let digits_len = j - start;
    if digits_len > 1 && s[start] == '0' {
        return None;
    }
    if neg && acc == 0 {
        return None;
    }
    proof {
        let d = s@.subrange(start as int, j as int);
        assert(d.len() == digits_len);
        assert(d[0] == s@[start as int]);
        lemma_canonical_digits(d);
    }
    if neg {
        let v: i64 = if acc == 9223372036854775808u64 {
            i64::MIN
        } else {
            -(acc as i64)
        };
        proof {
            assert(-(v as int) == acc as int);
            assert(dec_str(v as int) == seq!['-'] + dec_digits(acc as int));
            reveal_strlit("-");
            assert(s@.subrange(i as int, i + 1 as int) =~= seq!['-']);
            assert(s@.subrange(i as int, j as int) =~= s@.subrange(i as int, i + 1 as int)
                + s@.subrange(start as int, j as int));
        }
        Some((j, v))
    } else {
        let v: i64 = acc as i64;
        proof {
            assert(dec_str(v as int) == dec_digits(acc as int));
        }
        Some((j, v))
    }
}

/// Reads a quoted, escaped name.
/// The body at `start` reads what the body at `j` reads, with `acc`
/// prepended: the accumulator form of [`d_str_body`].
spec fn body_rel(s: Seq<char>, start: int, j: int, acc: Seq<char>) -> bool {
    d_str_body(s, start) == (match d_str_body(s, j) {
        Some((e, rest)) => Some((e, acc + rest)),
        None => None::<(int, Seq<char>)>,
    })
}

fn de_str(s: &Vec<char>, i: usize) -> (r: Option<(usize, String)>)
    requires
        i <= s@.len(),
    ensures
        r matches Some(p) ==> i < p.0 <= s@.len() && s@.subrange(i as int, p.0 as int) == ser_str(
            p.1@,
        ),
        match r {
            Some(p) => d_str(s@, i as int) == Some((p.0 as int, p.1@)),
            None => d_str(s@, i as int) is None,
        },
{
    if !(i < s.len() && s[i] == '"') {
        return None;
    }
    let mut j = i + 1;
    let mut name: Vec<char> = Vec::new();
    proof {
        match d_str_body(s@, i + 1) {
            Some((e, rest)) => {
                assert(Seq::<char>::empty() + rest =~= rest);
            },
            None => {},
        }
        assert(body_rel(s@, i + 1, i + 1, Seq::<char>::empty()));
    }
    loop
        invariant
            i + 1 <= j <= s@.len(),
            s@.subrange(i + 1, j as int) == esc(name@),
            body_rel(s@, i + 1, j as int, name@),
        ensures
            j < s@.len() && s@[j as int] == '"' && s@.subrange(i + 1, j as int) == esc(name@),
            body_rel(s@, i + 1, j as int, name@),
        decreases s@.len() - j,
    {
        if j >= s.len() {
            return None;
        }
        let c = s[j];
        let ghost pre = name@;
        if c == '"' {
            break ;
        } else if c == '\\' {
            if j + 1 >= s.len() {
                return None;
            }
            let c2 = s[j + 1];
            if c2 != '\\' && c2 != '"' {
                return None;
            }
            name.push(c2);
            proof {
                assert(name@.drop_last() =~= pre);
                assert(esc(name@) == esc(pre) + esc_char(c2));
                assert(s@.subrange(i + 1, j + 2 as int) =~= s@.subrange(i + 1, j as int) + seq![
                    '\\',
                    c2,
                ]);
                match d_str_body(s@, j + 2) {
                    Some((e, rest)) => {
                        assert(pre + (seq![c2] + rest) =~= name@ + rest);
                    },
                    None => {},
                }
                assert(body_rel(s@, i + 1, j + 2, name@));
            }
            j = j + 2;
        } else {
            name.push(c);
            proof {
                assert(name@.drop_last() =~= pre);
                assert(esc(name@) == esc(pre) + esc_char(c));
                assert(esc_char(c) =~= seq![c]);
                assert(s@.subrange(i + 1, j + 1 as int) =~= s@.subrange(i + 1, j as int) + seq![
                    c,
                ]);
                match d_str_body(s@, j + 1) {
                    Some((e, rest)) => {
                        assert(pre + (seq![c] + rest) =~= name@ + rest);
                    },
                    None => {},
                }
                assert(body_rel(s@, i + 1, j + 1, name@));
            }
            j = j + 1;
        }
    }
    proof {
        reveal_strlit("\"");
        assert(s@.subrange(i as int, i + 1) =~= "\""@);
        assert(s@.subrange(j as int, j + 1) =~= "\""@);
        assert(s@.subrange(i as int, j + 1) =~= s@.subrange(i as int, i + 1) + s@.subrange(
            i + 1,
            j as int,
        ) + s@.subrange(j as int, j + 1));
        assert(d_str_body(s@, j as int) == Some((j + 1 as int, Seq::<char>::empty())));
        assert(name@ + Seq::<char>::empty() =~= name@);
        assert(d_str(s@, i as int) == Some((j + 1 as int, name@)));
    }
    Some((j + 1, crate::text::string_from_chars(&name)))
}

/// Reads one operator object.
fn de_op(s: &Vec<char>, i: usize) -> (r: Option<(usize, Op)>)
    requires
        i <= s@.len(),
    ensures
        r matches Some(p) ==> i < p.0 <= s@.len() && s@.subrange(i as int, p.0 as int) == ser_op(
            p.1,
        ),
        match r {
            Some(p) => d_op(s@, i as int) == Some((p.0 as int, p.1)),
            None => d_op(s@, i as int) is None,
        },
{
    proof {
        reveal_strlit("{\"op_type\":\"add\"}");
        reveal_strlit("{\"op_type\":\"subtract\"}");
    }
    match eat(s, i, "{\"op_type\":\"add\"}") {
        Some(j) => Some((j, Op::Add)),
        None => match eat(s, i, "{\"op_type\":\"subtract\"}") {
            Some(j) => Some((j, Op::Subtract)),
            None => None,
        },
    }
}

/// Reads one canonically encoded expression.
fn de_expr(s: &Vec<char>, i: usize) -> (r: Option<(usize, Expression)>)
    requires
        i <= s@.len(),
    ensures
        r matches Some(p) ==> i < p.0 <= s@.len() && s@.subrange(i as int, p.0 as int) == ser_expr(
            p.1.view(),
        ),
        match r {
            Some(p) => d_expr(s@, i as int) == Some((p.0 as int, p.1.view())),
            None => d_expr(s@, i as int) is None,
        },
    decreases s@.len() - i, 1int,
{
    if let Some(j0) = eat(s, i, "{\"expression_type\":\"integer\",\"expression\":") {
        return de_expr_integer(s, i, j0);
    }
    if let Some(j0) = eat(s, i, "{\"expression_type\":\"variable\",\"expression\":") {
        return de_expr_variable(s, i, j0);
    }
    if let Some(j0) = eat(s, i, "{\"expression_type\":\"term\",\"expression\":[") {
        return de_expr_term(s, i, j0);
    }
    if let Some(j0) = eat(s, i, "{\"expression_type\":\"dice_roll\",\"expression\":{\"count\":") {
        return de_expr_dice(s, i, j0);
    }
    if let Some(j0) = eat(s, i, "{\"expression_type\":\"dice_roll_template\",\"expression\":{\"args\":[") {
        return de_expr_template(s, i, j0);
    }
    if let Some(j0) = eat(s, i, "{\"expression_type\":\"dice_roll_template_call\",\"expression\":{\"template_expression\":") {
        return de_expr_call(s, i, j0);
    }
    proof {
        assert(d_expr(s@, i as int) is None);
    }
    None
}

/// Reads the rest of an integer encoding, the discriminator eaten.
fn de_expr_integer(s: &Vec<char>, i: usize, j0: usize) -> (r: Option<(usize, Expression)>)
    requires
        i <= s@.len(),
        j0 <= s@.len(),
        j0 as int == i + "{\"expression_type\":\"integer\",\"expression\":"@.len(),
        crate::parser::has_tag(s@, i as int, "{\"expression_type\":\"integer\",\"expression\":"@),
    ensures
        r matches Some(p) ==> i < p.0 <= s@.len() && s@.subrange(i as int, p.0 as int) == ser_expr(
            p.1.view(),
        ),
        match r {
            Some(p) => d_expr(s@, i as int) == Some((p.0 as int, p.1.view())),
            None => d_expr(s@, i as int) is None,
        },
    decreases s@.len() - i, 0int,
{
    proof {
        reveal_strlit("{\"expression_type\":\"integer\",\"expression\":");
        reveal_strlit("}");
    }
    if let Some((j1, v)) = de_int(s, j0) {
        if let Some(j2) = eat(s, j1, "}") {
            let e = Expression::Integer(v);
            proof {
                assert(s@.subrange(i as int, j2 as int) =~= s@.subrange(i as int, j0 as int)
                    + s@.subrange(j0 as int, j1 as int) + s@.subrange(j1 as int, j2 as int));
                assert(d_expr(s@, i as int) == Some((j2 as int, e.view())));
            }
            return Some((j2, e));
        }
    }
    proof {
        assert(d_expr(s@, i as int) is None);
    }
    None
}

/// Reads the rest of a variable encoding, the discriminator eaten.
fn de_expr_variable(s: &Vec<char>, i: usize, j0: usize) -> (r: Option<(usize, Expression)>)
    requires
        i <= s@.len(),
        j0 <= s@.len(),
        j0 as int == i + "{\"expression_type\":\"variable\",\"expression\":"@.len(),
        !crate::parser::has_tag(s@, i as int, "{\"expression_type\":\"integer\",\"expression\":"@),
        crate::parser::has_tag(s@, i as int, "{\"expression_type\":\"variable\",\"expression\":"@),
    ensures
        r matches Some(p) ==> i < p.0 <= s@.len() && s@.subrange(i as int, p.0 as int) == ser_expr(
            p.1.view(),
        ),
        match r {
            Some(p) => d_expr(s@, i as int) == Some((p.0 as int, p.1.view())),
            None => d_expr(s@, i as int) is None,
        },
    decreases s@.len() - i, 0int,
{
    proof {
        reveal_strlit("{\"expression_type\":\"variable\",\"expression\":");
        reveal_strlit("}");
    }
    if let Some((j1, name)) = de_str(s, j0) {
        if let Some(j2) = eat(s, j1, "}") {
            let ghost namev = name@;
            let e = Expression::Variable(name);
            proof {
                assert(s@.subrange(i as int, j2 as int) =~= s@.subrange(i as int, j0 as int)
                    + s@.subrange(j0 as int, j1 as int) + s@.subrange(j1 as int, j2 as int));
                assert(d_expr(s@, i as int) == Some((j2 as int, e.view())));
            }
            return Some((j2, e));
        }
    }
    proof {
        assert(d_expr(s@, i as int) is None);
    }
    None
}

/// Reads the rest of a term encoding, the discriminator eaten.
fn de_expr_term(s: &Vec<char>, i: usize, j0: usize) -> (r: Option<(usize, Expression)>)
    requires
        i <= s@.len(),
        j0 <= s@.len(),
        j0 as int == i + "{\"expression_type\":\"term\",\"expression\":["@.len(),
        !crate::parser::has_tag(s@, i as int, "{\"expression_type\":\"integer\",\"expression\":"@),
        !crate::parser::has_tag(s@, i as int, "{\"expression_type\":\"variable\",\"expression\":"@),
        crate::parser::has_tag(s@, i as int, "{\"expression_type\":\"term\",\"expression\":["@),
    ensures
        r matches Some(p) ==> i < p.0 <= s@.len() && s@.subrange(i as int, p.0 as int) == ser_expr(
            p.1.view(),
        ),
        match r {
            Some(p) => d_expr(s@, i as int) == Some((p.0 as int, p.1.view())),
            None => d_expr(s@, i as int) is None,
        },
    decreases s@.len() - i, 0int,
{
    proof {
        reveal_strlit("{\"expression_type\":\"term\",\"expression\":[");
        reveal_strlit(",");
        reveal_strlit("]}");
    }
    if let Some((j1, l)) = de_expr(s, j0) {
        if let Some(j2) = eat(s, j1, ",") {
            if let Some((j3, rr)) = de_expr(s, j2) {
                if let Some(j4) = eat(s, j3, ",") {
                    if let Some((j5, op)) = de_op(s, j4) {
                        if let Some(j6) = eat(s, j5, "]}") {
                            let ghost lv = l.view();
                            let ghost rv = rr.view();
                            let e = Expression::Term(Box::new(l), Box::new(rr), op);
                            proof {
                                assert(e.view() == ExprV::Term(Box::new(lv), Box::new(rv), op));
                                assert(s@.subrange(i as int, j6 as int) =~= s@.subrange(
                                    i as int,
                                    j0 as int,
                                ) + s@.subrange(j0 as int, j1 as int) + s@.subrange(
                                    j1 as int,
                                    j2 as int,
                                ) + s@.subrange(j2 as int, j3 as int) + s@.subrange(
                                    j3 as int,
                                    j4 as int,
                                ) + s@.subrange(j4 as int, j5 as int) + s@.subrange(
                                    j5 as int,
                                    j6 as int,
                                ));
                                assert(d_expr(s@, i as int) == Some((j6 as int, e.view())));
                            }
                            return Some((j6, e));
                        }
                    }
                }
            }
        }
    }
    proof {
        assert(d_expr(s@, i as int) is None);
    }
    None
}

/// Reads the rest of a dice-roll encoding, the discriminator eaten.
fn de_expr_dice(s: &Vec<char>, i: usize, j0: usize) -> (r: Option<(usize, Expression)>)
    requires
        i <= s@.len(),
        j0 <= s@.len(),
        j0 as int == i + "{\"expression_type\":\"dice_roll\",\"expression\":{\"count\":"@.len(),
        !crate::parser::has_tag(s@, i as int, "{\"expression_type\":\"integer\",\"expression\":"@),
        !crate::parser::has_tag(s@, i as int, "{\"expression_type\":\"variable\",\"expression\":"@),
        !crate::parser::has_tag(s@, i as int, "{\"expression_type\":\"term\",\"expression\":["@),
        crate::parser::has_tag(s@, i as int, "{\"expression_type\":\"dice_roll\",\"expression\":{\"count\":"@),
    ensures
        r matches Some(p) ==> i < p.0 <= s@.len() && s@.subrange(i as int, p.0 as int) == ser_expr(
            p.1.view(),
        ),
        match r {
            Some(p) => d_expr(s@, i as int) == Some((p.0 as int, p.1.view())),
            None => d_expr(s@, i as int) is None,
        },
    decreases s@.len() - i, 0int,
{
    proof {
        reveal_strlit("{\"expression_type\":\"dice_roll\",\"expression\":{\"count\":");
        reveal_strlit(",\"sides\":");
        reveal_strlit("}}");
    }
    if let Some((j1, c)) = de_expr(s, j0) {
        if let Some(j2) = eat(s, j1, ",\"sides\":") {
            if let Some((j3, sd)) = de_expr(s, j2) {
                if let Some(j4) = eat(s, j3, "}}") {
                    let ghost cv = c.view();
                    let ghost sv = sd.view();
                    let e = Expression::DiceRoll { count: Box::new(c), sides: Box::new(sd) };
                    proof {
                        assert(e.view() == ExprV::Dice {
                            count: Box::new(cv),
                            sides: Box::new(sv),
                        });
                        assert(s@.subrange(i as int, j4 as int) =~= s@.subrange(
                            i as int,
                            j0 as int,
                        ) + s@.subrange(j0 as int, j1 as int) + s@.subrange(j1 as int, j2 as int)
                            + s@.subrange(j2 as int, j3 as int) + s@.subrange(
                            j3 as int,
                            j4 as int,
                        ));
                        assert(d_expr(s@, i as int) == Some((j4 as int, e.view())));
                    }
                    return Some((j4, e));
                }
            }
        }
    }
    proof {
        assert(d_expr(s@, i as int) is None);
    }
    None
}

/// Reads the rest of a template encoding, the discriminator eaten.
fn de_expr_template(s: &Vec<char>, i: usize, j0: usize) -> (r: Option<(usize, Expression)>)
    requires
        i <= s@.len(),
        j0 <= s@.len(),
        j0 as int == i + "{\"expression_type\":\"dice_roll_template\",\"expression\":{\"args\":["@.len(),
        !crate::parser::has_tag(s@, i as int, "{\"expression_type\":\"integer\",\"expression\":"@),
        !crate::parser::has_tag(s@, i as int, "{\"expression_type\":\"variable\",\"expression\":"@),
        !crate::parser::has_tag(s@, i as int, "{\"expression_type\":\"term\",\"expression\":["@),
        !crate::parser::has_tag(s@, i as int, "{\"expression_type\":\"dice_roll\",\"expression\":{\"count\":"@),
        crate::parser::has_tag(s@, i as int, "{\"expression_type\":\"dice_roll_template\",\"expression\":{\"args\":["@),
    ensures
        r matches Some(p) ==> i < p.0 <= s@.len() && s@.subrange(i as int, p.0 as int) == ser_expr(
            p.1.view(),
        ),
        match r {
            Some(p) => d_expr(s@, i as int) == Some((p.0 as int, p.1.view())),
            None => d_expr(s@, i as int) is None,
        },
    decreases s@.len() - i, 0int,
{
    proof {
        reveal_strlit("{\"expression_type\":\"dice_roll_template\",\"expression\":{\"args\":[");
        reveal_strlit("],\"expressions\":[");
        reveal_strlit("]}}");
    }
    let (j1, names) = de_names(s, j0);
    if let Some(j2) = eat(s, j1, "],\"expressions\":[") {
        if let Some((j3, exprs)) = de_list(s, j2) {
            if let Some(j4) = eat(s, j3, "]}}") {
                let ghost namesv = names@.map_values(|t: String| t@);
                let ghost bodyv = crate::types::view_seq(exprs@);
                let e = Expression::DiceRollTemplate { args: names, expressions: exprs };
                proof {
                    assert(e.view() == ExprV::Template { args: namesv, body: bodyv });
                    assert(s@.subrange(i as int, j4 as int) =~= s@.subrange(i as int, j0 as int)
                        + s@.subrange(j0 as int, j1 as int) + s@.subrange(j1 as int, j2 as int)
                        + s@.subrange(j2 as int, j3 as int) + s@.subrange(j3 as int, j4 as int));
                    assert(d_expr(s@, i as int) == Some((j4 as int, e.view())));
                }
                return Some((j4, e));
            }
        }
    }
    proof {
        assert(d_expr(s@, i as int) is None);
    }
    None
}

/// Reads the rest of a template-call encoding, the discriminator eaten.
fn de_expr_call(s: &Vec<char>, i: usize, j0: usize) -> (r: Option<(usize, Expression)>)
    requires
        i <= s@.len(),
        j0 <= s@.len(),
        j0 as int == i + "{\"expression_type\":\"dice_roll_template_call\",\"expression\":{\"template_expression\":"@.len(),
        !crate::parser::has_tag(s@, i as int, "{\"expression_type\":\"integer\",\"expression\":"@),
        !crate::parser::has_tag(s@, i as int, "{\"expression_type\":\"variable\",\"expression\":"@),
        !crate::parser::has_tag(s@, i as int, "{\"expression_type\":\"term\",\"expression\":["@),
        !crate::parser::has_tag(s@, i as int, "{\"expression_type\":\"dice_roll\",\"expression\":{\"count\":"@),
        !crate::parser::has_tag(s@, i as int, "{\"expression_type\":\"dice_roll_template\",\"expression\":{\"args\":["@),
        crate::parser::has_tag(s@, i as int, "{\"expression_type\":\"dice_roll_template_call\",\"expression\":{\"template_expression\":"@),
    ensures
        r matches Some(p) ==> i < p.0 <= s@.len() && s@.subrange(i as int, p.0 as int) == ser_expr(
            p.1.view(),
        ),
        match r {
            Some(p) => d_expr(s@, i as int) == Some((p.0 as int, p.1.view())),
            None => d_expr(s@, i as int) is None,
        },
    decreases s@.len() - i, 0int,
{
    proof {
        reveal_strlit("{\"expression_type\":\"dice_roll_template_call\",\"expression\":{\"template_expression\":");
        reveal_strlit(",\"args\":[");
        reveal_strlit("]}}");
    }
    if let Some((j1, t)) = de_expr(s, j0) {
        if let Some(j2) = eat(s, j1, ",\"args\":[") {
            if let Some((j3, args)) = de_list(s, j2) {
                if let Some(j4) = eat(s, j3, "]}}") {
                    let ghost tv = t.view();
                    let ghost argsv = crate::types::view_seq(args@);
                    let e = Expression::DiceRollTemplateCall {
                        template_expression: Box::new(t),
                        args,
                    };
                    proof {
                        assert(e.view() == ExprV::Call { target: Box::new(tv), args: argsv });
                        assert(s@.subrange(i as int, j4 as int) =~= s@.subrange(
                            i as int,
                            j0 as int,
                        ) + s@.subrange(j0 as int, j1 as int) + s@.subrange(j1 as int, j2 as int)
                            + s@.subrange(j2 as int, j3 as int) + s@.subrange(
                            j3 as int,
                            j4 as int,
                        ));
                        assert(d_expr(s@, i as int) == Some((j4 as int, e.view())));
                    }
                    return Some((j4, e));
                }
            }
        }
    }
    proof {
        assert(d_expr(s@, i as int) is None);
    }
    None
}

/// Reads a comma-separated, possibly empty run of encoded expressions,
/// stopping before the first character that continues no further element.
fn de_list(s: &Vec<char>, i: usize) -> (r: Option<(usize, Vec<Expression>)>)
    requires
        i <= s@.len(),
    ensures
        r matches Some(p) ==> i <= p.0 <= s@.len() && s@.subrange(i as int, p.0 as int)
            == ser_list(crate::types::view_seq(p.1@)),
        r is Some,
        r matches Some(p) ==> d_list(s@, i as int) == Some(
            (p.0 as int, crate::types::view_seq(p.1@)),
        ),
    decreases s@.len() - i, 2int,
{
    proof {
        reveal_strlit(",");
    }
    let mut out: Vec<Expression> = Vec::new();
    match de_expr(s, i) {
        Some((j, first)) => {
            let ghost firstv = first.view();
            out.push(first);
            proof {
                crate::types::lemma_view_seq(out@);
                assert(crate::types::view_seq(out@) =~= seq![firstv]);
            }
            let ghost start_list = d_list_more(s@, j as int, seq![firstv]);
            proof {
                assert(d_expr(s@, i as int) == Some((j as int, firstv)));
                assert(i < j <= s@.len());
                assert(d_list(s@, i as int) == Some(start_list));
            }
            let mut cur = j;
            loop
                invariant
                    i < cur <= s@.len(),
                    out@.len() >= 1,
                    s@.subrange(i as int, cur as int) == ser_list(crate::types::view_seq(out@)),
                    start_list == d_list_more(s@, cur as int, crate::types::view_seq(out@)),
                ensures
                    i < cur <= s@.len(),
                    s@.subrange(i as int, cur as int) == ser_list(crate::types::view_seq(out@)),
                    start_list == (cur as int, crate::types::view_seq(out@)),
                decreases s@.len() - cur,
            {
                if cur < s.len() && s[cur] == ',' {
                    match de_expr(s, cur + 1) {
                        Some((m, e2)) => {
                            let ghost pre = out@;
                            let ghost e2v = e2.view();
                            out.push(e2);
                            proof {
                                assert(out@.drop_last() =~= pre);
                                assert(out@.last().view() == e2v);
                                let vs = crate::types::view_seq(out@);
                                assert(vs == crate::types::view_seq(out@.drop_last()).push(e2v));
                                assert(vs.drop_last() =~= crate::types::view_seq(pre));
                                assert(vs.len() >= 2);
                                assert(vs.last() == e2v);
                                assert(ser_list(vs) == ser_list(vs.drop_last()) + ","@
                                    + ser_expr(vs.last()));
                                assert(ser_list(vs.drop_last()) == ser_list(
                                    crate::types::view_seq(pre),
                                ));
                                assert(ser_list(vs) == ser_list(crate::types::view_seq(pre))
                                    + ","@ + ser_expr(e2v));
                                reveal_strlit(",");
                                assert(s@.subrange(cur as int, cur + 1) =~= ","@);
                                assert(s@.subrange(i as int, m as int) =~= s@.subrange(
                                    i as int,
                                    cur as int,
                                ) + s@.subrange(cur as int, cur + 1) + s@.subrange(
                                    cur + 1,
                                    m as int,
                                ));
                            }
                            proof {
                                assert(d_list_more(s@, cur as int, crate::types::view_seq(pre))
                                    == d_list_more(s@, m as int, crate::types::view_seq(
                                    pre,
                                ).push(e2v)));
                                assert(crate::types::view_seq(pre).push(e2v)
                                    == crate::types::view_seq(out@));
                                assert(start_list == d_list_more(
                                    s@,
                                    m as int,
                                    crate::types::view_seq(out@),
                                ));
                            }
                            cur = m;
                        },
                        None => { break },
                    }
                } else {
                    break ;
                }
            }
            Some((cur, out))
        },
        None => {
            proof {
                assert(crate::types::view_seq(out@) =~= Seq::<ExprV>::empty());
                assert(s@.subrange(i as int, i as int) =~= Seq::<char>::empty());
            }
            Some((i, out))
        },
    }
}

/// Reads a comma-separated, possibly empty run of encoded names, stopping
/// before the first character that continues no further name.
fn de_names(s: &Vec<char>, i: usize) -> (r: (usize, Vec<String>))
    requires
        i <= s@.len(),
    ensures
        i <= r.0 <= s@.len(),
        s@.subrange(i as int, r.0 as int) == ser_names(r.1@.map_values(|t: String| t@)),
        d_names(s@, i as int) == (r.0 as int, r.1@.map_values(|t: String| t@)),
{
    proof {
        reveal_strlit(",");
    }
    let mut out: Vec<String> = Vec::new();
    match de_str(s, i) {
        Some((j, first)) => {
            let ghost firstv = first@;
            out.push(first);
            proof {
                assert(out@.map_values(|t: String| t@) =~= seq![firstv]);
            }
            let ghost start_names = d_names_more(s@, j as int, seq![firstv]);
            proof {
                assert(d_str(s@, i as int) == Some((j as int, firstv)));
                assert(i < j <= s@.len());
                assert(d_names(s@, i as int) == start_names);
            }
            let mut cur = j;
            loop
                invariant
                    i < cur <= s@.len(),
                    out@.len() >= 1,
                    s@.subrange(i as int, cur as int) == ser_names(
                        out@.map_values(|t: String| t@),
                    ),
                    start_names == d_names_more(s@, cur as int, out@.map_values(|t: String| t@)),
                ensures
                    i < cur <= s@.len(),
                    s@.subrange(i as int, cur as int) == ser_names(
                        out@.map_values(|t: String| t@),
                    ),
                    start_names == (cur as int, out@.map_values(|t: String| t@)),
                decreases s@.len() - cur,
            {
                if cur < s.len() && s[cur] == ',' {
                    match de_str(s, cur + 1) {
                        Some((m, name)) => {
                            let ghost pre = out@.map_values(|t: String| t@);
                            let ghost namev = name@;
                            out.push(name);
                            proof {
                                let vs = out@.map_values(|t: String| t@);
                                assert(vs =~= pre.push(namev));
                                assert(vs.drop_last() =~= pre);
                                assert(vs.len() >= 2);
                                assert(vs.last() == namev);
                                assert(ser_names(vs) == ser_names(vs.drop_last()) + ","@
                                    + ser_str(vs.last()));
                                assert(ser_names(vs.drop_last()) == ser_names(pre));
                                assert(ser_names(vs) == ser_names(pre) + ","@ + ser_str(namev));
                                reveal_strlit(",");
                                assert(s@.subrange(cur as int, cur + 1) =~= ","@);
                                assert(s@.subrange(i as int, m as int) =~= s@.subrange(
                                    i as int,
                                    cur as int,
                                ) + s@.subrange(cur as int, cur + 1) + s@.subrange(
                                    cur + 1,
                                    m as int,
                                ));
                            }
                            proof {
                                assert(d_names_more(s@, cur as int, pre) == d_names_more(
                                    s@,
                                    m as int,
                                    pre.push(namev),
                                ));
                                assert(pre.push(namev) == out@.map_values(|t: String| t@));
                                assert(start_names == d_names_more(
                                    s@,
                                    m as int,
                                    out@.map_values(|t: String| t@),
                                ));
                            }
                            cur = m;
                        },
                        None => { break },
                    }
                } else {
                    break ;
                }
            }
            (cur, out)
        },
        None => {
            proof {
                assert(out@.map_values(|t: String| t@) =~= Seq::<Seq<char>>::empty());
                assert(s@.subrange(i as int, i as int) =~= Seq::<char>::empty());
            }
            (i, out)
        },
    }
}

/// Escaping peels from the front as well: the escape of the first
/// character, then the escape of the rest.
proof fn lemma_esc_front(name: Seq<char>)
    requires
        name.len() > 0,
    ensures
        esc(name) == esc_char(name.first()) + esc(name.drop_first()),
    decreases name.len(),
{
    if name.len() == 1 {
        assert(name.drop_last() =~= Seq::<char>::empty());
        assert(name.drop_first() =~= Seq::<char>::empty());
        assert(name.last() == name.first());
        assert(esc(name) =~= esc_char(name.first()) + esc(name.drop_first()));
    } else {
        lemma_esc_front(name.drop_last());
        assert(name.drop_last().first() == name.first());
        assert(name.drop_last().drop_first() =~= name.drop_first().drop_last());
        assert(name.drop_first().last() == name.last());
        assert(esc(name.drop_first()) == esc(name.drop_first().drop_last()) + esc_char(
            name.last(),
        ));
        assert(esc(name) == (esc_char(name.first()) + esc(name.drop_first().drop_last()))
            + esc_char(name.last()));
        assert((esc_char(name.first()) + esc(name.drop_first().drop_last())) + esc_char(
            name.last(),
        ) =~= esc_char(name.first()) + (esc(name.drop_first().drop_last()) + esc_char(
            name.last(),
        )));
    }
}

/// Reading an escaped body finds exactly the name it was made from.
proof fn lemma_d_str_body_of_esc(name: Seq<char>, s: Seq<char>, j: int)
    requires
        0 <= j,
        j + esc(name).len() + 1 <= s.len(),
        s.subrange(j, j + esc(name).len()) == esc(name),
        s[j + esc(name).len()] == '"',
    ensures
        d_str_body(s, j) == Some((j + esc(name).len() + 1, name)),
    decreases name.len(),
{
    if name.len() == 0 {
        assert(s[j] == '"');
    } else {
        lemma_esc_front(name);
        let c = name.first();
        let ec = esc_char(c);
        let rest = name.drop_first();
        assert(esc(name).len() == ec.len() + esc(rest).len());
        assert forall|k: int| 0 <= k < ec.len() implies s[j + k] == ec[k] by {
            assert(s.subrange(j, j + esc(name).len())[k] == esc(name)[k]);
        }
        let j2 = j + ec.len();
        assert(s.subrange(j2, j2 + esc(rest).len()) =~= esc(rest)) by {
            assert forall|k: int| 0 <= k < esc(rest).len() implies s.subrange(
                j2,
                j2 + esc(rest).len(),
            )[k] == esc(rest)[k] by {
                assert(s.subrange(j, j + esc(name).len())[ec.len() + k] == esc(name)[ec.len()
                    + k]);
            }
        }
        lemma_d_str_body_of_esc(rest, s, j2);
        if c == '\\' || c == '"' {
            assert(ec.len() == 2);
            assert(s[j + 0] == ec[0] && s[j + 1] == ec[1]);
            assert(ec[0] == '\\' && ec[1] == c);
            assert(s[j] == '\\' && s[j + 1] == c);
            assert(seq![c] + rest =~= name);
        } else {
            assert(ec.len() == 1);
            assert(s[j + 0] == ec[0]);
            assert(ec[0] == c);
            assert(s[j] == c);
            assert(seq![c] + rest =~= name);
        }
    }
}

/// Reading a quoted name finds exactly the name it was made from.
proof fn lemma_d_str_of_ser(name: Seq<char>, s: Seq<char>, i: int)
    requires
        0 <= i,
        i + ser_str(name).len() <= s.len(),
        s.subrange(i, i + ser_str(name).len()) == ser_str(name),
    ensures
        d_str(s, i) == Some((i + ser_str(name).len(), name)),
{
    reveal_strlit("\"");
    assert(ser_str(name).len() == esc(name).len() + 2);
    assert(s[i] == '"') by {
        assert(s.subrange(i, i + ser_str(name).len())[0] == ser_str(name)[0]);
    }
    assert(s[i + 1 + esc(name).len() as int] == '"') by {
        assert(s.subrange(i, i + ser_str(name).len())[1 + esc(name).len() as int] == ser_str(
            name,
        )[1 + esc(name).len() as int]);
    }
    assert(s.subrange(i + 1, i + 1 + esc(name).len()) =~= esc(name)) by {
        assert forall|k: int| 0 <= k < esc(name).len() implies s.subrange(
            i + 1,
            i + 1 + esc(name).len(),
        )[k] == esc(name)[k] by {
            assert(s.subrange(i, i + ser_str(name).len())[1 + k] == ser_str(name)[1 + k]);
        }
    }
    lemma_d_str_body_of_esc(name, s, i + 1);
    assert(d_str_body(s, i + 1) == Some((i + 1 + esc(name).len() + 1, name)));
    assert(i + 1 + esc(name).len() + 1 == i + ser_str(name).len());
}

/// A multi-digit rendering never starts with a zero.
proof fn lemma_dec_digits_first(n: int)
    requires
        0 <= n,
    ensures
        dec_digits(n).len() > 1 ==> dec_digits(n)[0] != '0',
        dec_digits(n).len() >= 1,
    decreases n,
{
    crate::decimal::lemma_dec_digits(n);
    if n >= 10 {
        lemma_dec_digits_first(n / 10);
        crate::decimal::lemma_dec_digits(n / 10);
        assert(dec_digits(n) == dec_digits(n / 10).push(crate::decimal::digit_char(n % 10)));
        assert(dec_digits(n)[0] == dec_digits(n / 10)[0]);
        if n / 10 >= 10 {
            assert(dec_digits(n / 10) == dec_digits(n / 10 / 10).push(
                crate::decimal::digit_char(n / 10 % 10),
            ));
            crate::decimal::lemma_dec_digits(n / 10 / 10);
            assert(dec_digits(n / 10).len() > 1);
        }
        if n / 10 < 10 {
            assert(dec_digits(n / 10) =~= seq![crate::decimal::digit_char(n / 10)]);
            assert(n / 10 >= 1);
            assert(dec_digits(n / 10)[0] == crate::decimal::digit_char(n / 10));
            assert(crate::decimal::digit_char(n / 10) != '0') by {
                assert(crate::decimal::digit_val(crate::decimal::digit_char(n / 10)) == n / 10);
                assert(crate::decimal::digit_val('0') == 0);
            }
        }
    }
}

/// The digit run over a rendered number ends exactly at its end.
proof fn lemma_digits_end_exact(s: Seq<char>, i: int, j: int)
    requires
        0 <= i <= j <= s.len(),
        forall|k: int| i <= k < j ==> is_digit_char(#[trigger] s[k]),
        j == s.len() || !is_digit_char(s[j]),
    ensures
        crate::parser::digits_end(s, i) == j,
    decreases j - i,
{
    if i < j {
        lemma_digits_end_exact(s, i + 1, j);
    }
}

/// Reading a rendered integer finds exactly the value it was made from.
proof fn lemma_d_int_of_dec(v: i64, s: Seq<char>, i: int, j: int)
    requires
        0 <= i <= j <= s.len(),
        s.subrange(i, j) == dec_str(v as int),
        j == s.len() || !is_digit_char(s[j]),
    ensures
        d_int(s, i) == Some((j, v as int)),
{
    crate::decimal::lemma_dec_digits(if v >= 0 {
        v as int
    } else {
        -(v as int)
    });
    lemma_dec_digits_first(if v >= 0 {
        v as int
    } else {
        -(v as int)
    });
    if v >= 0 {
        let d = dec_digits(v as int);
        assert(j - i == d.len());
        assert forall|k: int| i <= k < j implies is_digit_char(#[trigger] s[k]) by {
            assert(s.subrange(i, j)[k - i] == d[k - i]);
        }
        assert(s[i] == d[0]) by {
            assert(s.subrange(i, j)[0] == d[0]);
        }
        assert(is_digit_char(s[i]));
        assert(s[i] != '-');
        lemma_digits_end_exact(s, i, j);
        assert(s.subrange(i, j) == d);
        assert(seq_val(s.subrange(i, j)) == v as int);
        if d.len() > 1 {
            assert(s[i] != '0');
        }
    } else {
        let m = -(v as int);
        let d = dec_digits(m);
        reveal_strlit("-");
        assert(dec_str(v as int) == seq!['-'] + d);
        assert(s.subrange(i, j).len() == j - i);
        assert((seq!['-'] + d).len() == 1 + d.len());
        assert(dec_str(v as int).len() == 1 + d.len());
        assert(j - i == 1 + d.len());
        assert(seq!['-'].len() == 1);
        assert(seq!['-'][0] == '-');
        assert((seq!['-'] + d)[0] == '-');
        assert(s[i] == '-') by {
            assert(s.subrange(i, j)[0] == (seq!['-'] + d)[0]);
        }
        assert forall|k: int| i + 1 <= k < j implies is_digit_char(#[trigger] s[k]) by {
            assert(s.subrange(i, j)[k - i] == (seq!['-'] + d)[k - i]);
        }
        assert(s.subrange(i + 1, j) =~= d) by {
            assert forall|k: int| 0 <= k < d.len() implies s.subrange(i + 1, j)[k] == d[k] by {
                assert(s.subrange(i, j)[1 + k] == (seq!['-'] + d)[1 + k]);
            }
        }
        assert(s[i + 1] == d[0]) by {
            assert(s.subrange(i + 1, j)[0] == d[0]);
        }
        assert(is_digit_char(s[i + 1]));
        lemma_digits_end_exact(s, i + 1, j);
        assert(seq_val(s.subrange(i + 1, j)) == m);
        if d.len() > 1 {
            assert(s[i + 1] != '0');
        }
        assert(m >= 1);
        assert(m <= 0x8000000000000000int);
    }
}

/// Splitting a known concatenation of two pieces into its windows.
proof fn lemma_split(s: Seq<char>, i: int, a: Seq<char>, b: Seq<char>)
    requires
        0 <= i,
        i + a.len() + b.len() <= s.len(),
        s.subrange(i, i + a.len() + b.len()) == a + b,
    ensures
        s.subrange(i, i + a.len()) == a,
        s.subrange(i + a.len(), i + a.len() + b.len()) == b,
{
    let whole = s.subrange(i, i + a.len() + b.len());
    assert forall|k: int| 0 <= k < a.len() implies s.subrange(i, i + a.len())[k] == a[k] by {
        assert(whole[k] == s[i + k]);
        assert(whole[k] == (a + b)[k]);
        assert((a + b)[k] == a[k]);
        assert(s.subrange(i, i + a.len())[k] == s[i + k]);
    }
    assert(s.subrange(i, i + a.len()) =~= a);
    assert forall|k: int| 0 <= k < b.len() implies s.subrange(
        i + a.len(),
        i + a.len() + b.len(),
    )[k] == b[k] by {
        assert(whole[a.len() + k] == s[i + a.len() + k]);
        assert(whole[a.len() + k] == (a + b)[a.len() + k]);
        assert((a + b)[a.len() + k] == b[k]);
        assert(s.subrange(i + a.len(), i + a.len() + b.len())[k] == s[i + a.len() + k]);
    }
    assert(s.subrange(i + a.len(), i + a.len() + b.len()) =~= b);
}

/// No encoding starts anywhere but at an opening brace.
proof fn lemma_d_expr_none_at(s: Seq<char>, i: int)
    requires
        i == s.len() || i < 0 || s[i] != '{',
    ensures
        d_expr(s, i) is None,
{
    reveal_strlit("{\"expression_type\":\"integer\",\"expression\":");
    reveal_strlit("{\"expression_type\":\"variable\",\"expression\":");
    reveal_strlit("{\"expression_type\":\"term\",\"expression\":[");
    reveal_strlit("{\"expression_type\":\"dice_roll\",\"expression\":{\"count\":");
    reveal_strlit("{\"expression_type\":\"dice_roll_template\",\"expression\":{\"args\":[");
    reveal_strlit(
        "{\"expression_type\":\"dice_roll_template_call\",\"expression\":{\"template_expression\":",
    );
    let p1 = "{\"expression_type\":\"integer\",\"expression\":"@;
    let p2 = "{\"expression_type\":\"variable\",\"expression\":"@;
    let p3 = "{\"expression_type\":\"term\",\"expression\":["@;
    let p4 = "{\"expression_type\":\"dice_roll\",\"expression\":{\"count\":"@;
    let p5 = "{\"expression_type\":\"dice_roll_template\",\"expression\":{\"args\":["@;
    let p6 =
        "{\"expression_type\":\"dice_roll_template_call\",\"expression\":{\"template_expression\":"@;
    assert(!crate::parser::has_tag(s, i, p1)) by {
        if crate::parser::has_tag(s, i, p1) {
            assert(s.subrange(i, i + p1.len())[0] == p1[0]);
        }
    }
    assert(!crate::parser::has_tag(s, i, p2)) by {
        if crate::parser::has_tag(s, i, p2) {
            assert(s.subrange(i, i + p2.len())[0] == p2[0]);
        }
    }
    assert(!crate::parser::has_tag(s, i, p3)) by {
        if crate::parser::has_tag(s, i, p3) {
            assert(s.subrange(i, i + p3.len())[0] == p3[0]);
        }
    }
    assert(!crate::parser::has_tag(s, i, p4)) by {
        if crate::parser::has_tag(s, i, p4) {
            assert(s.subrange(i, i + p4.len())[0] == p4[0]);
        }
    }
    assert(!crate::parser::has_tag(s, i, p5)) by {
        if crate::parser::has_tag(s, i, p5) {
            assert(s.subrange(i, i + p5.len())[0] == p5[0]);
        }
    }
    assert(!crate::parser::has_tag(s, i, p6)) by {
        if crate::parser::has_tag(s, i, p6) {
            assert(s.subrange(i, i + p6.len())[0] == p6[0]);
        }
    }
}

/// Reading a rendered operator finds exactly the operator.
proof fn lemma_d_op_of_ser(op: Op, s: Seq<char>, i: int)
    requires
        0 <= i,
        i + ser_op(op).len() <= s.len(),
        s.subrange(i, i + ser_op(op).len()) == ser_op(op),
    ensures
        d_op(s, i) == Some((i + ser_op(op).len(), op)),
{
    reveal_strlit("{\"op_type\":\"add\"}");
    reveal_strlit("{\"op_type\":\"subtract\"}");
    let pa = "{\"op_type\":\"add\"}"@;
    let ps = "{\"op_type\":\"subtract\"}"@;
    match op {
        Op::Add => {
            assert(crate::parser::has_tag(s, i, pa));
        },
        Op::Subtract => {
            assert(s[i + 12] == 's') by {
                assert(s.subrange(i, i + ps.len())[12] == ps[12]);
            }
            assert(!crate::parser::has_tag(s, i, pa)) by {
                if crate::parser::has_tag(s, i, pa) {
                    assert(s.subrange(i, i + pa.len())[12] == pa[12]);
                }
            }
            assert(crate::parser::has_tag(s, i, ps));
        },
    }
}

/// The tail of a rendered list: a comma and an element for each entry.
spec fn ser_list_tail(l: Seq<ExprV>) -> Seq<char>
    decreases l.len(),
{
    if l.len() == 0 {
        Seq::empty()
    } else {
        (","@ + ser_expr(l.first())) + ser_list_tail(l.drop_first())
    }
}

/// A rendered list is its first element followed by its tail.
proof fn lemma_ser_list_split(l: Seq<ExprV>)
    requires
        l.len() >= 1,
    ensures
        ser_list(l) == ser_expr(l.first()) + ser_list_tail(l.drop_first()),
    decreases l.len(),
{
    if l.len() == 1 {
        assert(l.first() == l.last());
        assert(ser_list_tail(l.drop_first()) =~= Seq::<char>::empty());
        assert(ser_list(l) =~= ser_expr(l.first()) + ser_list_tail(l.drop_first()));
    } else {
        lemma_ser_list_split(l.drop_last());
        assert(l.drop_last().first() == l.first());
        assert(l.drop_last().drop_first() =~= l.drop_first().drop_last());
        assert(ser_list(l) == ser_list(l.drop_last()) + ","@ + ser_expr(l.last()));
        lemma_ser_list_tail_push(l.drop_first());
        assert(l.drop_first().last() == l.last());
        assert(ser_list_tail(l.drop_first()) == ser_list_tail(l.drop_first().drop_last()) + (","@
            + ser_expr(l.last())));
        assert(ser_list(l) =~= ser_expr(l.first()) + ser_list_tail(l.drop_first()));
    }
}

/// A list tail grows at its end by a comma and the last element.
proof fn lemma_ser_list_tail_push(l: Seq<ExprV>)
    requires
        l.len() >= 1,
    ensures
        ser_list_tail(l) == ser_list_tail(l.drop_last()) + (","@ + ser_expr(l.last())),
    decreases l.len(),
{
    if l.len() == 1 {
        assert(l.drop_last() =~= Seq::<ExprV>::empty());
        assert(l.drop_first() =~= Seq::<ExprV>::empty());
        assert(l.first() == l.last());
        assert(ser_list_tail(l) =~= ser_list_tail(l.drop_last()) + (","@ + ser_expr(l.last())));
    } else {
        lemma_ser_list_tail_push(l.drop_first());
        assert(l.drop_first().last() == l.last());
        assert(l.drop_first().drop_last() =~= l.drop_last().drop_first());
        assert(l.drop_last().first() == l.first());
        assert(ser_list_tail(l.drop_last()) == (","@ + ser_expr(l.first())) + ser_list_tail(
            l.drop_last().drop_first(),
        ));
        assert(((","@ + ser_expr(l.first())) + ser_list_tail(l.drop_last().drop_first())) + (","@
            + ser_expr(l.last())) =~= (","@ + ser_expr(l.first())) + (ser_list_tail(
            l.drop_last().drop_first(),
        ) + (","@ + ser_expr(l.last()))));
    }
}

/// The tail of a rendered name list: a comma and a name for each entry.
spec fn ser_names_tail(names: Seq<Seq<char>>) -> Seq<char>
    decreases names.len(),
{
    if names.len() == 0 {
        Seq::empty()
    } else {
        (","@ + ser_str(names.first())) + ser_names_tail(names.drop_first())
    }
}

/// A rendered name list is its first name followed by its tail.
proof fn lemma_ser_names_split(names: Seq<Seq<char>>)
    requires
        names.len() >= 1,
    ensures
        ser_names(names) == ser_str(names.first()) + ser_names_tail(names.drop_first()),
    decreases names.len(),
{
    if names.len() == 1 {
        assert(names.first() == names.last());
        assert(ser_names_tail(names.drop_first()) =~= Seq::<char>::empty());
        assert(ser_names(names) =~= ser_str(names.first()) + ser_names_tail(names.drop_first()));
    } else {
        lemma_ser_names_split(names.drop_last());
        assert(names.drop_last().first() == names.first());
        assert(names.drop_last().drop_first() =~= names.drop_first().drop_last());
        assert(ser_names(names) == ser_names(names.drop_last()) + ","@ + ser_str(names.last()));
        lemma_ser_names_tail_push(names.drop_first());
        assert(names.drop_first().last() == names.last());
        assert(ser_names_tail(names.drop_first()) == ser_names_tail(
            names.drop_first().drop_last(),
        ) + (","@ + ser_str(names.last())));
        assert(ser_names(names) =~= ser_str(names.first()) + ser_names_tail(names.drop_first()));
    }
}

/// A name-list tail grows at its end by a comma and the last name.
proof fn lemma_ser_names_tail_push(names: Seq<Seq<char>>)
    requires
        names.len() >= 1,
    ensures
        ser_names_tail(names) == ser_names_tail(names.drop_last()) + (","@ + ser_str(
            names.last(),
        )),
    decreases names.len(),
{
    if names.len() == 1 {
        assert(names.drop_last() =~= Seq::<Seq<char>>::empty());
        assert(names.drop_first() =~= Seq::<Seq<char>>::empty());
        assert(names.first() == names.last());
        assert(ser_names_tail(names) =~= ser_names_tail(names.drop_last()) + (","@ + ser_str(
            names.last(),
        )));
    } else {
        lemma_ser_names_tail_push(names.drop_first());
        assert(names.drop_first().last() == names.last());
        assert(names.drop_first().drop_last() =~= names.drop_last().drop_first());
        assert(names.drop_last().first() == names.first());
        assert(ser_names_tail(names.drop_last()) == (","@ + ser_str(names.first()))
            + ser_names_tail(names.drop_last().drop_first()));
        assert(((","@ + ser_str(names.first())) + ser_names_tail(names.drop_last().drop_first()))
            + (","@ + ser_str(names.last())) =~= (","@ + ser_str(names.first())) + (
        ser_names_tail(names.drop_last().drop_first()) + (","@ + ser_str(names.last()))));
    }
}

/// Every encoding is non-empty.
proof fn lemma_ser_expr_len_pos(e: ExprV)
    ensures
        ser_expr(e).len() >= 1,
{
    reveal_strlit("{\"expression_type\":\"integer\",\"expression\":");
    reveal_strlit("{\"expression_type\":\"variable\",\"expression\":");
    reveal_strlit("{\"expression_type\":\"term\",\"expression\":[");
    reveal_strlit("{\"expression_type\":\"dice_roll\",\"expression\":{\"count\":");
    reveal_strlit("{\"expression_type\":\"dice_roll_template\",\"expression\":{\"args\":[");
    reveal_strlit(
        "{\"expression_type\":\"dice_roll_template_call\",\"expression\":{\"template_expression\":",
    );
}

/// Reading the encoding of `e` at `i` finds exactly `e` and stops exactly
/// after it.
proof fn lemma_d_expr_of_ser(e: ExprV, s: Seq<char>, i: int)
    requires
        0 <= i,
        i + ser_expr(e).len() <= s.len(),
        s.subrange(i, i + ser_expr(e).len()) == ser_expr(e),
    ensures
        d_expr(s, i) == Some((i + ser_expr(e).len(), e)),
    decreases e, 1int,
{
    match e {
        ExprV::Integer(n) => lemma_d_ser_integer(n, s, i),
        ExprV::Variable(name) => lemma_d_ser_variable(name, s, i),
        ExprV::Term(l, r, op) => lemma_d_ser_term(l, r, op, s, i),
        ExprV::Dice { count, sides } => lemma_d_ser_dice(count, sides, s, i),
        ExprV::Template { args, body } => lemma_d_ser_template(args, body, s, i),
        ExprV::Call { target, args } => lemma_d_ser_call(target, args, s, i),
    }
}

proof fn lemma_d_ser_integer(n0: i64, s: Seq<char>, i: int)
    requires
        0 <= i,
        i + ser_expr(ExprV::Integer(n0)).len() <= s.len(),
        s.subrange(i, i + ser_expr(ExprV::Integer(n0)).len()) == ser_expr(ExprV::Integer(n0)),
    ensures
        d_expr(s, i) == Some((i + ser_expr(ExprV::Integer(n0)).len(), ExprV::Integer(n0))),
    decreases ExprV::Integer(n0), 0int,
{
    reveal_strlit("{\"expression_type\":\"integer\",\"expression\":");
    reveal_strlit("{\"expression_type\":\"variable\",\"expression\":");
    reveal_strlit("{\"expression_type\":\"term\",\"expression\":[");
    reveal_strlit("{\"expression_type\":\"dice_roll\",\"expression\":{\"count\":");
    reveal_strlit("{\"expression_type\":\"dice_roll_template\",\"expression\":{\"args\":[");
    reveal_strlit(
        "{\"expression_type\":\"dice_roll_template_call\",\"expression\":{\"template_expression\":",
    );
    reveal_strlit("}");
    reveal_strlit(",");
    reveal_strlit("]}");
    reveal_strlit("}}");
    reveal_strlit(",\"sides\":");
    reveal_strlit("],\"expressions\":[");
    reveal_strlit(",\"args\":[");
    reveal_strlit("]}}");
    let p1 = "{\"expression_type\":\"integer\",\"expression\":"@;
    let p2 = "{\"expression_type\":\"variable\",\"expression\":"@;
    let p3 = "{\"expression_type\":\"term\",\"expression\":["@;
    let p4 = "{\"expression_type\":\"dice_roll\",\"expression\":{\"count\":"@;
    let p5 = "{\"expression_type\":\"dice_roll_template\",\"expression\":{\"args\":["@;
    let p6 =
        "{\"expression_type\":\"dice_roll_template_call\",\"expression\":{\"template_expression\":"@;
    let p1 = "{\"expression_type\":\"integer\",\"expression\":"@;
    let p2 = "{\"expression_type\":\"variable\",\"expression\":"@;
    let p3 = "{\"expression_type\":\"term\",\"expression\":["@;
    let p4 = "{\"expression_type\":\"dice_roll\",\"expression\":{\"count\":"@;
    let p5 = "{\"expression_type\":\"dice_roll_template\",\"expression\":{\"args\":["@;
    let p6 =
        "{\"expression_type\":\"dice_roll_template_call\",\"expression\":{\"template_expression\":"@;
    let e = ExprV::Integer(n0);
    let enc = ser_expr(e);
    match e {
        ExprV::Integer(n) => {
            let dstr = dec_str(n as int);
            assert(enc == (p1 + dstr) + "}"@);
            lemma_split(s, i, p1 + dstr, "}"@);
            lemma_split(s, i, p1, dstr);
            let j0 = i + p1.len() as int;
            let j1 = j0 + dstr.len() as int;
            assert(crate::parser::has_tag(s, i, p1));
            assert(s[j1] == '}') by {
                assert(s.subrange(j1, j1 + 1)[0] == "}"@[0]);
            }
            assert(!is_digit_char(s[j1]));
            lemma_d_int_of_dec(n, s, j0, j1);
            assert(crate::parser::has_tag(s, j1, "}"@));
            assert(d_expr(s, i) == Some((j1 + 1, e)));
        },
        _ => {},
    }
}

proof fn lemma_d_ser_variable(name0: Seq<char>, s: Seq<char>, i: int)
    requires
        0 <= i,
        i + ser_expr(ExprV::Variable(name0)).len() <= s.len(),
        s.subrange(i, i + ser_expr(ExprV::Variable(name0)).len()) == ser_expr(ExprV::Variable(name0)),
    ensures
        d_expr(s, i) == Some((i + ser_expr(ExprV::Variable(name0)).len(), ExprV::Variable(name0))),
    decreases ExprV::Variable(name0), 0int,
{
    reveal_strlit("{\"expression_type\":\"integer\",\"expression\":");
    reveal_strlit("{\"expression_type\":\"variable\",\"expression\":");
    reveal_strlit("{\"expression_type\":\"term\",\"expression\":[");
    reveal_strlit("{\"expression_type\":\"dice_roll\",\"expression\":{\"count\":");
    reveal_strlit("{\"expression_type\":\"dice_roll_template\",\"expression\":{\"args\":[");
    reveal_strlit(
        "{\"expression_type\":\"dice_roll_template_call\",\"expression\":{\"template_expression\":",
    );
    reveal_strlit("}");
    reveal_strlit(",");
    reveal_strlit("]}");
    reveal_strlit("}}");
    reveal_strlit(",\"sides\":");
    reveal_strlit("],\"expressions\":[");
    reveal_strlit(",\"args\":[");
    reveal_strlit("]}}");
    let p1 = "{\"expression_type\":\"integer\",\"expression\":"@;
    let p2 = "{\"expression_type\":\"variable\",\"expression\":"@;
    let p3 = "{\"expression_type\":\"term\",\"expression\":["@;
    let p4 = "{\"expression_type\":\"dice_roll\",\"expression\":{\"count\":"@;
    let p5 = "{\"expression_type\":\"dice_roll_template\",\"expression\":{\"args\":["@;
    let p6 =
        "{\"expression_type\":\"dice_roll_template_call\",\"expression\":{\"template_expression\":"@;
    let p1 = "{\"expression_type\":\"integer\",\"expression\":"@;
    let p2 = "{\"expression_type\":\"variable\",\"expression\":"@;
    let p3 = "{\"expression_type\":\"term\",\"expression\":["@;
    let p4 = "{\"expression_type\":\"dice_roll\",\"expression\":{\"count\":"@;
    let p5 = "{\"expression_type\":\"dice_roll_template\",\"expression\":{\"args\":["@;
    let p6 =
        "{\"expression_type\":\"dice_roll_template_call\",\"expression\":{\"template_expression\":"@;
    let e = ExprV::Variable(name0);
    let enc = ser_expr(e);
    match e {
        ExprV::Variable(name) => {
            let q = ser_str(name);
            assert(enc == (p2 + q) + "}"@);
            lemma_split(s, i, p2 + q, "}"@);
            lemma_split(s, i, p2, q);
            let j0 = i + p2.len() as int;
            let j1 = j0 + q.len() as int;
            assert(s[i + 20] == 'v') by {
                assert(s.subrange(i, i + p2.len())[20] == p2[20]);
            }
            assert(!crate::parser::has_tag(s, i, p1)) by {
                if crate::parser::has_tag(s, i, p1) {
                    assert(s.subrange(i, i + p1.len())[20] == p1[20]);
                }
            }
            assert(crate::parser::has_tag(s, i, p2));
            lemma_d_str_of_ser(name, s, j0);
            assert(crate::parser::has_tag(s, j1, "}"@));
            assert(d_expr(s, i) == Some((j1 + 1, e)));
        },
        _ => {},
    }
}

proof fn lemma_d_ser_term(l0: Box<ExprV>, r0: Box<ExprV>, op0: Op, s: Seq<char>, i: int)
    requires
        0 <= i,
        i + ser_expr(ExprV::Term(l0, r0, op0)).len() <= s.len(),
        s.subrange(i, i + ser_expr(ExprV::Term(l0, r0, op0)).len()) == ser_expr(ExprV::Term(l0, r0, op0)),
    ensures
        d_expr(s, i) == Some((i + ser_expr(ExprV::Term(l0, r0, op0)).len(), ExprV::Term(l0, r0, op0))),
    decreases ExprV::Term(l0, r0, op0), 0int,
{
    reveal_strlit("{\"expression_type\":\"integer\",\"expression\":");
    reveal_strlit("{\"expression_type\":\"variable\",\"expression\":");
    reveal_strlit("{\"expression_type\":\"term\",\"expression\":[");
    reveal_strlit("{\"expression_type\":\"dice_roll\",\"expression\":{\"count\":");
    reveal_strlit("{\"expression_type\":\"dice_roll_template\",\"expression\":{\"args\":[");
    reveal_strlit(
        "{\"expression_type\":\"dice_roll_template_call\",\"expression\":{\"template_expression\":",
    );
    reveal_strlit("}");
    reveal_strlit(",");
    reveal_strlit("]}");
    reveal_strlit("}}");
    reveal_strlit(",\"sides\":");
    reveal_strlit("],\"expressions\":[");
    reveal_strlit(",\"args\":[");
    reveal_strlit("]}}");
    let p1 = "{\"expression_type\":\"integer\",\"expression\":"@;
    let p2 = "{\"expression_type\":\"variable\",\"expression\":"@;
    let p3 = "{\"expression_type\":\"term\",\"expression\":["@;
    let p4 = "{\"expression_type\":\"dice_roll\",\"expression\":{\"count\":"@;
    let p5 = "{\"expression_type\":\"dice_roll_template\",\"expression\":{\"args\":["@;
    let p6 =
        "{\"expression_type\":\"dice_roll_template_call\",\"expression\":{\"template_expression\":"@;
    let p1 = "{\"expression_type\":\"integer\",\"expression\":"@;
    let p2 = "{\"expression_type\":\"variable\",\"expression\":"@;
    let p3 = "{\"expression_type\":\"term\",\"expression\":["@;
    let p4 = "{\"expression_type\":\"dice_roll\",\"expression\":{\"count\":"@;
    let p5 = "{\"expression_type\":\"dice_roll_template\",\"expression\":{\"args\":["@;
    let p6 =
        "{\"expression_type\":\"dice_roll_template_call\",\"expression\":{\"template_expression\":"@;
    let e = ExprV::Term(l0, r0, op0);
    let enc = ser_expr(e);
    match e {
        ExprV::Term(l, r, op) => {
            let la = ser_expr(*l);
            let rb = ser_expr(*r);
            let ob = ser_op(op);
            assert(enc == (((((p3 + la) + ","@) + rb) + ","@) + ob) + "]}"@);
            lemma_split(s, i, ((((p3 + la) + ","@) + rb) + ","@) + ob, "]}"@);
            lemma_split(s, i, (((p3 + la) + ","@) + rb) + ","@, ob);
            lemma_split(s, i, ((p3 + la) + ","@) + rb, ","@);
            lemma_split(s, i, (p3 + la) + ","@, rb);
            lemma_split(s, i, p3 + la, ","@);
            lemma_split(s, i, p3, la);
            let j0 = i + p3.len() as int;
            let j1 = j0 + la.len() as int;
            let j2 = j1 + 1;
            let j3 = j2 + rb.len() as int;
            let j4 = j3 + 1;
            let j5 = j4 + ob.len() as int;
            assert(s[i + 20] == 't') by {
                assert(s.subrange(i, i + p3.len())[20] == p3[20]);
            }
            assert(!crate::parser::has_tag(s, i, p1)) by {
                if crate::parser::has_tag(s, i, p1) {
                    assert(s.subrange(i, i + p1.len())[20] == p1[20]);
                }
            }
            assert(!crate::parser::has_tag(s, i, p2)) by {
                if crate::parser::has_tag(s, i, p2) {
                    assert(s.subrange(i, i + p2.len())[20] == p2[20]);
                }
            }
            assert(crate::parser::has_tag(s, i, p3));
            lemma_d_expr_of_ser(*l, s, j0);
            assert(crate::parser::has_tag(s, j1, ","@));
            lemma_d_expr_of_ser(*r, s, j2);
            assert(crate::parser::has_tag(s, j3, ","@));
            lemma_d_op_of_ser(op, s, j4);
            assert(crate::parser::has_tag(s, j5, "]}"@));
            assert(d_expr(s, i) == Some((j5 + 2, e)));
        },
        _ => {},
    }
}

proof fn lemma_d_ser_dice(c0: Box<ExprV>, s0: Box<ExprV>, s: Seq<char>, i: int)
    requires
        0 <= i,
        i + ser_expr(ExprV::Dice { count: c0, sides: s0 }).len() <= s.len(),
        s.subrange(i, i + ser_expr(ExprV::Dice { count: c0, sides: s0 }).len()) == ser_expr(ExprV::Dice { count: c0, sides: s0 }),
    ensures
        d_expr(s, i) == Some((i + ser_expr(ExprV::Dice { count: c0, sides: s0 }).len(), (ExprV::Dice { count: c0, sides: s0 }))),
    decreases (ExprV::Dice { count: c0, sides: s0 }), 0int,
{
    reveal_strlit("{\"expression_type\":\"integer\",\"expression\":");
    reveal_strlit("{\"expression_type\":\"variable\",\"expression\":");
    reveal_strlit("{\"expression_type\":\"term\",\"expression\":[");
    reveal_strlit("{\"expression_type\":\"dice_roll\",\"expression\":{\"count\":");
    reveal_strlit("{\"expression_type\":\"dice_roll_template\",\"expression\":{\"args\":[");
    reveal_strlit(
        "{\"expression_type\":\"dice_roll_template_call\",\"expression\":{\"template_expression\":",
    );
    reveal_strlit("}");
    reveal_strlit(",");
    reveal_strlit("]}");
    reveal_strlit("}}");
    reveal_strlit(",\"sides\":");
    reveal_strlit("],\"expressions\":[");
    reveal_strlit(",\"args\":[");
    reveal_strlit("]}}");
    let p1 = "{\"expression_type\":\"integer\",\"expression\":"@;
    let p2 = "{\"expression_type\":\"variable\",\"expression\":"@;
    let p3 = "{\"expression_type\":\"term\",\"expression\":["@;
    let p4 = "{\"expression_type\":\"dice_roll\",\"expression\":{\"count\":"@;
    let p5 = "{\"expression_type\":\"dice_roll_template\",\"expression\":{\"args\":["@;
    let p6 =
        "{\"expression_type\":\"dice_roll_template_call\",\"expression\":{\"template_expression\":"@;
    let p1 = "{\"expression_type\":\"integer\",\"expression\":"@;
    let p2 = "{\"expression_type\":\"variable\",\"expression\":"@;
    let p3 = "{\"expression_type\":\"term\",\"expression\":["@;
    let p4 = "{\"expression_type\":\"dice_roll\",\"expression\":{\"count\":"@;
    let p5 = "{\"expression_type\":\"dice_roll_template\",\"expression\":{\"args\":["@;
    let p6 =
        "{\"expression_type\":\"dice_roll_template_call\",\"expression\":{\"template_expression\":"@;
    let e = (ExprV::Dice { count: c0, sides: s0 });
    let enc = ser_expr(e);
    match e {
        ExprV::Dice { count, sides } => {
            let ca = ser_expr(*count);
            let sb = ser_expr(*sides);
            let mid = ",\"sides\":"@;
            assert(enc == (((p4 + ca) + mid) + sb) + "}}"@);
            lemma_split(s, i, ((p4 + ca) + mid) + sb, "}}"@);
            lemma_split(s, i, (p4 + ca) + mid, sb);
            lemma_split(s, i, p4 + ca, mid);
            lemma_split(s, i, p4, ca);
            let j0 = i + p4.len() as int;
            let j1 = j0 + ca.len() as int;
            let j2 = j1 + 9;
            let j3 = j2 + sb.len() as int;
            assert(s[i + 20] == 'd') by {
                assert(s.subrange(i, i + p4.len())[20] == p4[20]);
            }
            assert(!crate::parser::has_tag(s, i, p1)) by {
                if crate::parser::has_tag(s, i, p1) {
                    assert(s.subrange(i, i + p1.len())[20] == p1[20]);
                }
            }
            assert(!crate::parser::has_tag(s, i, p2)) by {
                if crate::parser::has_tag(s, i, p2) {
                    assert(s.subrange(i, i + p2.len())[20] == p2[20]);
                }
            }
            assert(!crate::parser::has_tag(s, i, p3)) by {
                if crate::parser::has_tag(s, i, p3) {
                    assert(s.subrange(i, i + p3.len())[20] == p3[20]);
                }
            }
            assert(crate::parser::has_tag(s, i, p4));
            lemma_d_expr_of_ser(*count, s, j0);
            assert(crate::parser::has_tag(s, j1, mid));
            lemma_d_expr_of_ser(*sides, s, j2);
            assert(crate::parser::has_tag(s, j3, "}}"@));
            assert(d_expr(s, i) == Some((j3 + 2, e)));
        },
        _ => {},
    }
}

proof fn lemma_d_ser_template(a0: Seq<Seq<char>>, b0: Seq<ExprV>, s: Seq<char>, i: int)
    requires
        0 <= i,
        i + ser_expr(ExprV::Template { args: a0, body: b0 }).len() <= s.len(),
        s.subrange(i, i + ser_expr(ExprV::Template { args: a0, body: b0 }).len()) == ser_expr(ExprV::Template { args: a0, body: b0 }),
    ensures
        d_expr(s, i) == Some((i + ser_expr(ExprV::Template { args: a0, body: b0 }).len(), (ExprV::Template { args: a0, body: b0 }))),
    decreases (ExprV::Template { args: a0, body: b0 }), 0int,
{
    reveal_strlit("{\"expression_type\":\"integer\",\"expression\":");
    reveal_strlit("{\"expression_type\":\"variable\",\"expression\":");
    reveal_strlit("{\"expression_type\":\"term\",\"expression\":[");
    reveal_strlit("{\"expression_type\":\"dice_roll\",\"expression\":{\"count\":");
    reveal_strlit("{\"expression_type\":\"dice_roll_template\",\"expression\":{\"args\":[");
    reveal_strlit(
        "{\"expression_type\":\"dice_roll_template_call\",\"expression\":{\"template_expression\":",
    );
    reveal_strlit("}");
    reveal_strlit(",");
    reveal_strlit("]}");
    reveal_strlit("}}");
    reveal_strlit(",\"sides\":");
    reveal_strlit("],\"expressions\":[");
    reveal_strlit(",\"args\":[");
    reveal_strlit("]}}");
    let p1 = "{\"expression_type\":\"integer\",\"expression\":"@;
    let p2 = "{\"expression_type\":\"variable\",\"expression\":"@;
    let p3 = "{\"expression_type\":\"term\",\"expression\":["@;
    let p4 = "{\"expression_type\":\"dice_roll\",\"expression\":{\"count\":"@;
    let p5 = "{\"expression_type\":\"dice_roll_template\",\"expression\":{\"args\":["@;
    let p6 =
        "{\"expression_type\":\"dice_roll_template_call\",\"expression\":{\"template_expression\":"@;
    let p1 = "{\"expression_type\":\"integer\",\"expression\":"@;
    let p2 = "{\"expression_type\":\"variable\",\"expression\":"@;
    let p3 = "{\"expression_type\":\"term\",\"expression\":["@;
    let p4 = "{\"expression_type\":\"dice_roll\",\"expression\":{\"count\":"@;
    let p5 = "{\"expression_type\":\"dice_roll_template\",\"expression\":{\"args\":["@;
    let p6 =
        "{\"expression_type\":\"dice_roll_template_call\",\"expression\":{\"template_expression\":"@;
    let e = (ExprV::Template { args: a0, body: b0 });
    let enc = ser_expr(e);
    match e {
        ExprV::Template { args, body } => {
            let na = ser_names(args);
            let mid = "],\"expressions\":["@;
            let lb = ser_list(body);
            assert(enc == (((p5 + na) + mid) + lb) + "]}}"@);
            lemma_split(s, i, ((p5 + na) + mid) + lb, "]}}"@);
            lemma_split(s, i, (p5 + na) + mid, lb);
            lemma_split(s, i, p5 + na, mid);
            lemma_split(s, i, p5, na);
            let j0 = i + p5.len() as int;
            let j1 = j0 + na.len() as int;
            let j2 = j1 + 17;
            let j3 = j2 + lb.len() as int;
            assert(s[i + 20] == 'd') by {
                assert(s.subrange(i, i + p5.len())[20] == p5[20]);
            }
            assert(s[i + 29] == '_') by {
                assert(s.subrange(i, i + p5.len())[29] == p5[29]);
            }
            assert(!crate::parser::has_tag(s, i, p1)) by {
                if crate::parser::has_tag(s, i, p1) {
                    assert(s.subrange(i, i + p1.len())[20] == p1[20]);
                }
            }
            assert(!crate::parser::has_tag(s, i, p2)) by {
                if crate::parser::has_tag(s, i, p2) {
                    assert(s.subrange(i, i + p2.len())[20] == p2[20]);
                }
            }
            assert(!crate::parser::has_tag(s, i, p3)) by {
                if crate::parser::has_tag(s, i, p3) {
                    assert(s.subrange(i, i + p3.len())[20] == p3[20]);
                }
            }
            assert(!crate::parser::has_tag(s, i, p4)) by {
                if crate::parser::has_tag(s, i, p4) {
                    assert(s.subrange(i, i + p4.len())[29] == p4[29]);
                }
            }
            assert(crate::parser::has_tag(s, i, p5));
            assert(s[j1] == ']') by {
                assert(s.subrange(j1, j1 + 17)[0] == mid[0]);
            }
            lemma_d_names_of_ser(args, s, j0, j1);
            assert(crate::parser::has_tag(s, j1, mid));
            assert(s[j3] == ']') by {
                assert(s.subrange(j3, j3 + 3)[0] == "]}}"@[0]);
            }
            lemma_d_list_of_ser(body, s, j2, j3);
            assert(crate::parser::has_tag(s, j3, "]}}"@));
            assert(d_expr(s, i) == Some((j3 + 3, e)));
        },
        _ => {},
    }
}

proof fn lemma_d_ser_call(t0: Box<ExprV>, g0: Seq<ExprV>, s: Seq<char>, i: int)
    requires
        0 <= i,
        i + ser_expr(ExprV::Call { target: t0, args: g0 }).len() <= s.len(),
        s.subrange(i, i + ser_expr(ExprV::Call { target: t0, args: g0 }).len()) == ser_expr(ExprV::Call { target: t0, args: g0 }),
    ensures
        d_expr(s, i) == Some((i + ser_expr(ExprV::Call { target: t0, args: g0 }).len(), (ExprV::Call { target: t0, args: g0 }))),
    decreases (ExprV::Call { target: t0, args: g0 }), 0int,
{
    reveal_strlit("{\"expression_type\":\"integer\",\"expression\":");
    reveal_strlit("{\"expression_type\":\"variable\",\"expression\":");
    reveal_strlit("{\"expression_type\":\"term\",\"expression\":[");
    reveal_strlit("{\"expression_type\":\"dice_roll\",\"expression\":{\"count\":");
    reveal_strlit("{\"expression_type\":\"dice_roll_template\",\"expression\":{\"args\":[");
    reveal_strlit(
        "{\"expression_type\":\"dice_roll_template_call\",\"expression\":{\"template_expression\":",
    );
    reveal_strlit("}");
    reveal_strlit(",");
    reveal_strlit("]}");
    reveal_strlit("}}");
    reveal_strlit(",\"sides\":");
    reveal_strlit("],\"expressions\":[");
    reveal_strlit(",\"args\":[");
    reveal_strlit("]}}");
    let p1 = "{\"expression_type\":\"integer\",\"expression\":"@;
    let p2 = "{\"expression_type\":\"variable\",\"expression\":"@;
    let p3 = "{\"expression_type\":\"term\",\"expression\":["@;
    let p4 = "{\"expression_type\":\"dice_roll\",\"expression\":{\"count\":"@;
    let p5 = "{\"expression_type\":\"dice_roll_template\",\"expression\":{\"args\":["@;
    let p6 =
        "{\"expression_type\":\"dice_roll_template_call\",\"expression\":{\"template_expression\":"@;
    let p1 = "{\"expression_type\":\"integer\",\"expression\":"@;
    let p2 = "{\"expression_type\":\"variable\",\"expression\":"@;
    let p3 = "{\"expression_type\":\"term\",\"expression\":["@;
    let p4 = "{\"expression_type\":\"dice_roll\",\"expression\":{\"count\":"@;
    let p5 = "{\"expression_type\":\"dice_roll_template\",\"expression\":{\"args\":["@;
    let p6 =
        "{\"expression_type\":\"dice_roll_template_call\",\"expression\":{\"template_expression\":"@;
    let e = (ExprV::Call { target: t0, args: g0 });
    let enc = ser_expr(e);
    match e {
        ExprV::Call { target, args } => {
            let ta = ser_expr(*target);
            let mid = ",\"args\":["@;
            let lb = ser_list(args);
            assert(enc == (((p6 + ta) + mid) + lb) + "]}}"@);
            lemma_split(s, i, ((p6 + ta) + mid) + lb, "]}}"@);
            lemma_split(s, i, (p6 + ta) + mid, lb);
            lemma_split(s, i, p6 + ta, mid);
            lemma_split(s, i, p6, ta);
            let j0 = i + p6.len() as int;
            let j1 = j0 + ta.len() as int;
            let j2 = j1 + 9;
            let j3 = j2 + lb.len() as int;
            assert(s[i + 20] == 'd') by {
                assert(s.subrange(i, i + p6.len())[20] == p6[20]);
            }
            assert(s[i + 29] == '_') by {
                assert(s.subrange(i, i + p6.len())[29] == p6[29]);
            }
            assert(s[i + 38] == '_') by {
                assert(s.subrange(i, i + p6.len())[38] == p6[38]);
            }
            assert(!crate::parser::has_tag(s, i, p1)) by {
                if crate::parser::has_tag(s, i, p1) {
                    assert(s.subrange(i, i + p1.len())[20] == p1[20]);
                }
            }
            assert(!crate::parser::has_tag(s, i, p2)) by {
                if crate::parser::has_tag(s, i, p2) {
                    assert(s.subrange(i, i + p2.len())[20] == p2[20]);
                }
            }
            assert(!crate::parser::has_tag(s, i, p3)) by {
                if crate::parser::has_tag(s, i, p3) {
                    assert(s.subrange(i, i + p3.len())[20] == p3[20]);
                }
            }
            assert(!crate::parser::has_tag(s, i, p4)) by {
                if crate::parser::has_tag(s, i, p4) {
                    assert(s.subrange(i, i + p4.len())[29] == p4[29]);
                }
            }
            assert(!crate::parser::has_tag(s, i, p5)) by {
                if crate::parser::has_tag(s, i, p5) {
                    assert(s.subrange(i, i + p5.len())[38] == p5[38]);
                }
            }
            assert(crate::parser::has_tag(s, i, p6));
            lemma_d_expr_of_ser(*target, s, j0);
            assert(crate::parser::has_tag(s, j1, mid));
            assert(s[j3] == ']') by {
                assert(s.subrange(j3, j3 + 3)[0] == "]}}"@[0]);
            }
            lemma_d_list_of_ser(args, s, j2, j3);
            assert(crate::parser::has_tag(s, j3, "]}}"@));
            assert(d_expr(s, i) == Some((j3 + 3, e)));
        },
        _ => {},
    }
}

/// Reading a rendered argument list at `i` finds exactly the list, stopping
/// at the closing bracket after it.
proof fn lemma_d_list_of_ser(l: Seq<ExprV>, s: Seq<char>, i: int, end: int)
    requires
        0 <= i <= end,
        end < s.len(),
        s.subrange(i, end) == ser_list(l),
        s[end] == ']',
    ensures
        d_list(s, i) == Some((end, l)),
    decreases l, 1int,
{
    if l.len() == 0 {
        assert(end == i);
        lemma_d_expr_none_at(s, i);
        assert(l =~= Seq::<ExprV>::empty());
    } else {
        lemma_ser_list_split(l);
        let fa = ser_expr(l.first());
        let tl = ser_list_tail(l.drop_first());
        assert(ser_list(l).len() == (fa + tl).len());
        assert(end - i == fa.len() + tl.len());
        lemma_split(s, i, fa, tl);
        lemma_d_expr_of_ser(l.first(), s, i);
        lemma_ser_expr_len_pos(l.first());
        let j = i + fa.len() as int;
        lemma_d_list_more_of_ser(l.drop_first(), seq![l.first()], s, j, end);
        assert(seq![l.first()] + l.drop_first() =~= l);
        assert(d_list(s, i) == Some(d_list_more(s, j, seq![l.first()])));
    }
}

/// Reading a rendered list tail continues exactly through its elements.
proof fn lemma_d_list_more_of_ser(
    rest: Seq<ExprV>,
    acc: Seq<ExprV>,
    s: Seq<char>,
    cur: int,
    end: int,
)
    requires
        0 <= cur <= end,
        end < s.len(),
        s.subrange(cur, end) == ser_list_tail(rest),
        s[end] == ']',
    ensures
        d_list_more(s, cur, acc) == (end, acc + rest),
    decreases rest, 0int,
{
    reveal_strlit(",");
    if rest.len() == 0 {
        assert(cur == end);
        assert(acc + rest =~= acc);
    } else {
        let fa = ser_expr(rest.first());
        let tl = ser_list_tail(rest.drop_first());
        assert(ser_list_tail(rest) == (","@ + fa) + tl);
        lemma_split(s, cur, ","@ + fa, tl);
        lemma_split(s, cur, ","@, fa);
        assert(s[cur] == ',') by {
            assert(s.subrange(cur, cur + 1)[0] == ","@[0]);
        }
        lemma_d_expr_of_ser(rest.first(), s, cur + 1);
        lemma_ser_expr_len_pos(rest.first());
        let m = cur + 1 + fa.len() as int;
        lemma_d_list_more_of_ser(rest.drop_first(), acc.push(rest.first()), s, m, end);
        assert(acc.push(rest.first()) + rest.drop_first() =~= acc + rest);
        assert(d_list_more(s, cur, acc) == d_list_more(s, m, acc.push(rest.first())));
    }
}

/// Reading a rendered name list at `i` finds exactly the names, stopping at
/// the closing bracket after them.
proof fn lemma_d_names_of_ser(names: Seq<Seq<char>>, s: Seq<char>, i: int, end: int)
    requires
        0 <= i <= end,
        end < s.len(),
        s.subrange(i, end) == ser_names(names),
        s[end] == ']',
    ensures
        d_names(s, i) == (end, names),
{
    if names.len() == 0 {
        assert(end == i);
        assert(names =~= Seq::<Seq<char>>::empty());
    } else {
        lemma_ser_names_split(names);
        let fa = ser_str(names.first());
        let tl = ser_names_tail(names.drop_first());
        assert(ser_names(names).len() == (fa + tl).len());
        assert(end - i == fa.len() + tl.len());
        lemma_split(s, i, fa, tl);
        lemma_d_str_of_ser(names.first(), s, i);
        reveal_strlit("\"");
        assert(fa.len() >= 2);
        let j = i + fa.len() as int;
        lemma_d_names_more_of_ser(names.drop_first(), seq![names.first()], s, j, end);
        assert(seq![names.first()] + names.drop_first() =~= names);
        assert(d_names(s, i) == d_names_more(s, j, seq![names.first()]));
    }
}

/// Reading a rendered name-list tail continues exactly through its names.
proof fn lemma_d_names_more_of_ser(
    rest: Seq<Seq<char>>,
    acc: Seq<Seq<char>>,
    s: Seq<char>,
    cur: int,
    end: int,
)
    requires
        0 <= cur <= end,
        end < s.len(),
        s.subrange(cur, end) == ser_names_tail(rest),
        s[end] == ']',
    ensures
        d_names_more(s, cur, acc) == (end, acc + rest),
    decreases rest.len(),
{
    reveal_strlit(",");
    if rest.len() == 0 {
        assert(cur == end);
        assert(acc + rest =~= acc);
    } else {
        let fa = ser_str(rest.first());
        let tl = ser_names_tail(rest.drop_first());
        assert(ser_names_tail(rest) == (","@ + fa) + tl);
        lemma_split(s, cur, ","@ + fa, tl);
        lemma_split(s, cur, ","@, fa);
        assert(s[cur] == ',') by {
            assert(s.subrange(cur, cur + 1)[0] == ","@[0]);
        }
        lemma_d_str_of_ser(rest.first(), s, cur + 1);
        reveal_strlit("\"");
        assert(fa.len() >= 2);
        let m = cur + 1 + fa.len() as int;
        lemma_d_names_more_of_ser(rest.drop_first(), acc.push(rest.first()), s, m, end);
        assert(acc.push(rest.first()) + rest.drop_first() =~= acc + rest);
        assert(d_names_more(s, cur, acc) == d_names_more(s, m, acc.push(rest.first())));
    }
}

/// The encoding round trip: reading back the canonical encoding of any
/// expression yields that expression exactly, consuming the whole text.
/// With `serialize_expression` writing `ser_expr` and
/// `deserialize_expression` reading `d_expr`, decoding an encoded value
/// always succeeds and returns an equal value.
pub proof fn lemma_encoding_round_trip(e: ExprV)
    ensures
        d_expr(ser_expr(e), 0) == Some((ser_expr(e).len() as int, e)),
{
    let s = ser_expr(e);
    assert(s.subrange(0, s.len() as int) =~= s);
    lemma_d_expr_of_ser(e, s, 0);
}

/// Decodes one stored expression.  Only the whole of a canonical encoding
/// is accepted, and whatever is accepted re-serializes to exactly the
/// input: `r matches Some(e)` implies `ser_expr(e@) == s@`.
pub fn deserialize_expression(s: &str) -> (r: Option<Expression>)
    ensures
        r matches Some(e) ==> ser_expr(e.view()) == s@,
        match r {
            Some(e) => d_expr(s@, 0) == Some((s@.len() as int, e.view())),
            None => !(d_expr(s@, 0) matches Some(p) && p.0 == s@.len()),
        },
{
    let chars = crate::text::chars_of(s);
    match de_expr(&chars, 0) {
        Some((j, e)) => {
            if j == chars.len() {
                proof {
                    assert(s@.subrange(0, s@.len() as int) =~= s@);
                }
                Some(e)
            } else {
                None
            }
        },
        None => None,
    }
}

/// Quotes and escapes one name (see [`ser_str`]).
#[verifier::loop_isolation(false)]
fn escape_string(name: &String) -> (r: String)
    ensures
        r@ == ser_str(name@),
{
    let chars = crate::text::chars_of(name.as_str());
    let mut out: Vec<char> = Vec::new();
    out.push('"');
    let mut i: usize = 0;
    while i < chars.len()
        invariant
            i <= chars@.len(),
            out@ =~= seq!['"'] + esc(name@.subrange(0, i as int)),
        decreases chars@.len() - i,
    {
        let c = chars[i];
        if c == '\\' {
            out.push('\\');
            out.push('\\');
        } else if c == '"' {
            out.push('\\');
            out.push('"');
        } else {
            out.push(c);
        }
        proof {
            let sub1 = name@.subrange(0, i + 1 as int);
            assert(sub1.drop_last() =~= name@.subrange(0, i as int));
            assert(sub1.last() == name@[i as int]);
            assert(out@ =~= seq!['"'] + esc(sub1));
        }
        i = i + 1;
    }
    out.push('"');
    proof {
        assert(name@.subrange(0, name@.len() as int) =~= name@);
        reveal_strlit("\"");
        assert(out@ =~= ser_str(name@));
    }
    crate::text::string_from_chars(&out)
}

} // verus!
