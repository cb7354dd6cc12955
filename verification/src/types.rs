//! The abstract syntax of the roll language, its mathematical view, and the
//! traits through which the evaluator reaches contexts and environments.
use vstd::prelude::*;

verus! {

/// Binary additive operator.  Both variants sit at one precedence level and
/// associate to the left.
#[derive(Debug, Clone, Copy, PartialEq, Eq, Structural)]
pub enum Op {
    Add,
    Subtract,
}

/// An expression tree.  This is both what the parser produces and the only
/// runtime value representation: evaluation reduces every expression to
/// `Integer(_)` or to a first-class `DiceRollTemplate { .. }` value.
#[derive(Debug, PartialEq)]
pub enum Expression {
    /// A brace-delimited reference to a stored variable.
    Variable(String),
    /// A 64-bit signed integer literal or computed value.
    Integer(i64),
    /// A first-class roll recipe: ordered parameter names and a non-empty
    /// ordered body; a call returns the value of the last body expression.
    DiceRollTemplate { args: Vec<String>, expressions: Vec<Expression> },
    /// Application of a template value to an ordered list of arguments.
    DiceRollTemplateCall { template_expression: Box<Expression>, args: Vec<Expression> },
    /// `count` dice of `sides` sides each, rolled independently and summed.
    DiceRoll { count: Box<Expression>, sides: Box<Expression> },
    /// `Term(left, right, op)` is the binary operation `left op right`.
    Term(Box<Expression>, Box<Expression>, Op),
}

/// One parsed input line.
#[derive(Debug, PartialEq)]
pub enum Statement {
    Roll(Box<Expression>),
    SetValue(String, Box<Expression>),
    PrintEnv,
    Help,
}

/// The mathematical view of an [`Expression`]: names become `Seq<char>` and
/// vectors become `Seq`, so that two expressions are equal exactly when they
/// print and evaluate alike.
pub ghost enum ExprV {
    Variable(Seq<char>),
    Integer(i64),
    Template { args: Seq<Seq<char>>, body: Seq<ExprV> },
    Call { target: Box<ExprV>, args: Seq<ExprV> },
    Dice { count: Box<ExprV>, sides: Box<ExprV> },
    Term(Box<ExprV>, Box<ExprV>, Op),
}

/// The mathematical view of a [`Statement`].
pub ghost enum StmtV {
    Roll(ExprV),
    SetValue(Seq<char>, ExprV),
    PrintEnv,
    Help,
}

impl Expression {
    /// The view of this expression (see [`ExprV`]).
    pub open spec fn view(self) -> ExprV
        decreases self,
    {
        match self {
            Expression::Variable(name) => ExprV::Variable(name@),
            Expression::Integer(i) => ExprV::Integer(i),
            Expression::DiceRollTemplate { args, expressions } => ExprV::Template {
                args: args@.map_values(|s: String| s@),
                body: view_seq(expressions@),
            },
            Expression::DiceRollTemplateCall { template_expression, args } => ExprV::Call {
                target: Box::new(template_expression.view()),
                args: view_seq(args@),
            },
            Expression::DiceRoll { count, sides } => ExprV::Dice {
                count: Box::new(count.view()),
                sides: Box::new(sides.view()),
            },
            Expression::Term(left, right, op) => ExprV::Term(
                Box::new(left.view()),
                Box::new(right.view()),
                op,
            ),
        }
    }
}

/// The element-wise view of a sequence of expressions.
pub open spec fn view_seq(s: Seq<Expression>) -> Seq<ExprV>
    decreases s,
{
    if s.len() == 0 {
        Seq::empty()
    } else {
        view_seq(s.drop_last()).push(s.last().view())
    }
}

/// `view_seq` is the element-wise map of `view`.
pub proof fn lemma_view_seq(s: Seq<Expression>)
    ensures
        view_seq(s).len() == s.len(),
        forall|i: int| 0 <= i < s.len() ==> view_seq(s)[i] == #[trigger] s[i].view(),
    decreases s.len(),
{
    if s.len() > 0 {
        lemma_view_seq(s.drop_last());
        assert forall|i: int| 0 <= i < s.len() implies view_seq(s)[i] == #[trigger] s[i].view() by {
            if i < s.len() - 1 {
                assert(s.drop_last()[i] == s[i]);
                assert(view_seq(s.drop_last())[i] == s.drop_last()[i].view());
            }
        }
    }
}

impl Statement {
    /// The view of this statement (see [`StmtV`]).
    pub open spec fn view(self) -> StmtV {
        match self {
            Statement::Roll(e) => StmtV::Roll(e.view()),
            Statement::SetValue(name, e) => StmtV::SetValue(name@, e.view()),
            Statement::PrintEnv => StmtV::PrintEnv,
            Statement::Help => StmtV::Help,
        }
    }
}

impl Expression {
    /// A structural copy of this expression whose view equals the original's.
    ///
    /// The derived `Clone` carries no specification for types with heap
    /// fields, so the environment copies values with this method instead.
    #[verifier::loop_isolation(false)]
    pub fn duplicate(&self) -> (r: Expression)
        ensures
            r.view() == self.view(),
        decreases self,
    {
        match self {
            Expression::Variable(name) => Expression::Variable(name.clone()),
            Expression::Integer(i) => Expression::Integer(*i),
            Expression::DiceRollTemplate { args, expressions } => {
                let mut args2: Vec<String> = Vec::new();
                let mut body2: Vec<Expression> = Vec::new();
                let mut i: usize = 0;
                while i < args.len()
                    invariant
                        i <= args.len(),
                        args2@.len() == i as int,
                        forall|j: int| 0 <= j < i ==> args2@[j]@ == args@[j]@,
                    decreases args.len() - i,
                {
                    args2.push(args[i].clone());
                    i = i + 1;
                }
                let mut k: usize = 0;
                while k < expressions.len()
                    invariant
                        k <= expressions.len(),
                        body2@.len() == k as int,
                        forall|j: int| 0 <= j < k ==> body2@[j].view() == expressions@[j].view(),
                    decreases expressions.len() - k,
                {
                    proof {
                        assert(decreases_to!(*self => expressions@));
                        assert(decreases_to!(expressions@ => expressions@[k as int]));
                    }
                    let e2 = expressions[k].duplicate();
                    body2.push(e2);
                    k = k + 1;
                }
                proof {
                    assert(args2@.map_values(|s: String| s@) =~= args@.map_values(
                        |s: String| s@,
                    ));
                    lemma_view_seq(body2@);
                    lemma_view_seq(expressions@);
                    assert forall|j: int| 0 <= j < body2@.len() implies view_seq(body2@)[j]
                        == view_seq(expressions@)[j] by {
                        assert(body2@[j].view() == expressions@[j].view());
                    }
                    assert(view_seq(body2@) =~= view_seq(expressions@));
                }
                Expression::DiceRollTemplate { args: args2, expressions: body2 }
            },
            Expression::DiceRollTemplateCall { template_expression, args } => {
                let target2 = template_expression.duplicate();
                let mut args2: Vec<Expression> = Vec::new();
                let mut k: usize = 0;
                while k < args.len()
                    invariant
                        k <= args.len(),
                        args2@.len() == k as int,
                        forall|j: int| 0 <= j < k ==> args2@[j].view() == args@[j].view(),
                    decreases args.len() - k,
                {
                    proof {
                        assert(decreases_to!(*self => args@));
                        assert(decreases_to!(args@ => args@[k as int]));
                    }
                    let e2 = args[k].duplicate();
                    args2.push(e2);
                    k = k + 1;
                }
                proof {
                    lemma_view_seq(args2@);
                    lemma_view_seq(args@);
                    assert forall|j: int| 0 <= j < args2@.len() implies view_seq(args2@)[j]
                        == view_seq(args@)[j] by {
                        assert(args2@[j].view() == args@[j].view());
                    }
                    assert(view_seq(args2@) =~= view_seq(args@));
                }
                Expression::DiceRollTemplateCall {
                    template_expression: Box::new(target2),
                    args: args2,
                }
            },
            Expression::DiceRoll { count, sides } => {
                let c2 = count.duplicate();
                let s2 = sides.duplicate();
                Expression::DiceRoll { count: Box::new(c2), sides: Box::new(s2) }
            },
            Expression::Term(left, right, op) => {
                let l2 = left.duplicate();
                let r2 = right.duplicate();
                Expression::Term(Box::new(l2), Box::new(r2), *op)
            },
        }
    }
}

/// An opaque scope identity.  The two keys partition the environment: every
/// variable access goes through `user_context_key`, while the global key is
/// reserved for a future shared scope.
pub trait Context: Sized {
    /// The user-scoped partition key as a sequence of characters.
    spec fn user_key(&self) -> Seq<char>;

    /// The global partition key as a sequence of characters.
    spec fn global_key(&self) -> Seq<char>;

    /// Renders the user-scoped partition key.
    fn user_context_key(&self) -> (r: String)
        ensures
            r@ == self.user_key(),
    ;

    /// Renders the global partition key.
    fn global_context_key(&self) -> (r: String)
        ensures
            r@ == self.global_key(),
    ;
}

/// The variable bindings a nested scope map holds at `key`: its inner map
/// there, or the empty map where the scope has no entry yet.
pub open spec fn scope_of(scopes: Map<Seq<char>, Map<Seq<char>, ExprV>>, key: Seq<char>) -> Map<
    Seq<char>,
    ExprV,
> {
    if scopes.contains_key(key) {
        scopes[key]
    } else {
        Map::empty()
    }
}

/// A keyed store of variables: logically a map from `(context key, name)` to
/// expressions.  The in-memory store implements it directly; a persistent
/// store implements it over its backing documents, in which case only its
/// use here is checked, not the implementation.
pub trait Environment: Sized {
    /// The store's internal validity condition.
    spec fn inv(&self) -> bool;

    /// The nested mapping `context key -> (name -> expression)` the store
    /// currently represents.
    spec fn scopes(&self) -> Map<Seq<char>, Map<Seq<char>, ExprV>>;

    /// True of stores whose `closure` cannot fail.
    spec fn closure_total(&self) -> bool;

    /// The expression stored under `ctx`'s user key for `var_name`, if any.
    fn get<C: Context>(&self, ctx: &C, var_name: &str) -> (r: Option<Expression>)
        requires
            self.inv(),
        ensures
            ({
                let m = scope_of(self.scopes(), ctx.user_key());
                match r {
                    Some(e) => m.contains_key(var_name@) && e.view() == m[var_name@],
                    None => !m.contains_key(var_name@),
                }
            }),
    ;

    /// Binds `var_name` to `value` under `ctx`'s user key, replacing any
    /// earlier binding.
    fn set<C: Context>(&mut self, ctx: &C, var_name: &str, value: &Expression)
        requires
            old(self).inv(),
        ensures
            final(self).inv(),
            final(self).closure_total() == old(self).closure_total(),
            final(self).scopes() =~= old(self).scopes().insert(
                ctx.user_key(),
                scope_of(old(self).scopes(), ctx.user_key()).insert(var_name@, value.view()),
            ),
    ;

    /// Renders the bindings visible under `ctx`'s user key, or an opaque tag
    /// for stores that do not enumerate; never empty.
    fn print<C: Context>(&self, ctx: &C) -> (r: String)
        requires
            self.inv(),
        ensures
            r@.len() > 0,
    ;

    /// A snapshot of every binding visible under `ctx`'s user key.
    fn closure<C: Context>(&self, ctx: &C) -> (r: Result<crate::environments::VarMap, ()>)
        requires
            self.inv(),
        ensures
            self.closure_total() ==> r is Ok,
            (r matches Ok(m) ==> m.wf() && m.as_map() == scope_of(
                self.scopes(),
                ctx.user_key(),
            )),
    ;
}

/// A computation over statements and expressions, as the evaluator
/// implements it.
pub trait Visitor<S, E> {
    fn visit_statement(&mut self, stmt: &Statement) -> S;

    fn visit_expression(&mut self, expr: &Expression) -> E;
}

/// A reader of input lines into statements.
pub trait Parser<E> {
    fn parse(&self, input: &str) -> Result<Statement, E>;
}

} // verus!
