//! The read-eval-print façade: a parser, a roll source and an environment,
//! driven one input line at a time, and the context keys that partition the
//! environment by scope and user.
use crate::dice::{RollSource, StdRoller};
use crate::environments::hash_map_environment::HashMapEnvironment;
use crate::error::{ErrV, RollerError};
use crate::eval::{eval_statement, min_eval_stmt, str_res_view, MAX_CALL_DEPTH};
use crate::parser::{parse_stmt, StatementParser};
use crate::types::{scope_of, Context, Environment, ExprV, StmtV};
use vstd::prelude::*;
use vstd::string::StringExecFns;

verus! {

/// Which chat channel (or the literal `repl`) and which user an input line
/// speaks for.  Constructed per line and discarded after it.
#[derive(Debug, Clone, PartialEq)]
pub struct REPLContext {
    repl_scope: String,
    user_id: String,
}

/// The failure a front-end shows when a line cannot be handled at all.
#[derive(Debug, Clone, PartialEq, Eq, Structural)]
pub struct REPLError;

/// The user partition key for a scope and user pair.
pub open spec fn user_key_of(scope: Seq<char>, user: Seq<char>) -> Seq<char> {
    "scope:"@ + scope + "#scope_type:user#user:"@ + user
}

/// The reserved global partition key for a scope.
pub open spec fn global_key_of(scope: Seq<char>) -> Seq<char> {
    "scope:"@ + scope + "#scope_type:global"@
}

impl REPLContext {
    /// The scope (channel) this context speaks in.
    pub closed spec fn scope(&self) -> Seq<char> {
        self.repl_scope@
    }

    /// The user this context speaks for.
    pub closed spec fn user(&self) -> Seq<char> {
        self.user_id@
    }

    /// A context for one scope and user.
    pub fn new(repl_scope: String, user_id: String) -> (r: REPLContext)
        ensures
            r.scope() == repl_scope@,
            r.user() == user_id@,
    {
        REPLContext { repl_scope, user_id }
    }
}

impl Context for REPLContext {
    open spec fn user_key(&self) -> Seq<char> {
        user_key_of(self.scope(), self.user())
    }

    open spec fn global_key(&self) -> Seq<char> {
        global_key_of(self.scope())
    }

    fn user_context_key(&self) -> (r: String) {
        let mut s = String::from_str("scope:");
        s.append(self.repl_scope.as_str());
        s.append("#scope_type:user#user:");
        s.append(self.user_id.as_str());
        s
    }

    fn global_context_key(&self) -> (r: String) {
        let mut s = String::from_str("scope:");
        s.append(self.repl_scope.as_str());
        s.append("#scope_type:global");
        s
    }
}

/// One read-eval-print loop: parses a line, evaluates it against the held
/// environment with the held roll source, and answers with text.
pub struct REPL<E: Environment, R: RollSource> {
    parser: StatementParser,
    rng: R,
    environment: E,
}

impl REPL<HashMapEnvironment, StdRoller> {
    /// An in-memory REPL drawing dice from an entropy-seeded PRNG.
    pub fn in_memory() -> (r: REPL<HashMapEnvironment, StdRoller>)
        ensures
            r.env_inv(),
            r.snapshots_total(),
            r.scopes() =~= Map::<Seq<char>, Map<Seq<char>, ExprV>>::empty(),
    {
        REPL { parser: StatementParser, rng: StdRoller::new(), environment: HashMapEnvironment::new() }
    }
}

impl Default for REPL<HashMapEnvironment, StdRoller> {
    /// The in-memory REPL (see [`REPL::in_memory`]).
    fn default() -> (r: REPL<HashMapEnvironment, StdRoller>)
        ensures
            r.env_inv(),
            r.snapshots_total(),
            r.scopes() =~= Map::<Seq<char>, Map<Seq<char>, ExprV>>::empty(),
    {
        REPL::in_memory()
    }
}

impl<E: Environment, R: RollSource> REPL<E, R> {
    /// The held environment's validity.
    pub closed spec fn env_inv(&self) -> bool {
        self.environment.inv()
    }

    /// The held environment's bindings.
    pub closed spec fn scopes(&self) -> Map<Seq<char>, Map<Seq<char>, ExprV>> {
        self.environment.scopes()
    }

    /// True when every die of the held source lands on 1.
    pub closed spec fn min_source(&self) -> bool {
        self.rng.always_min()
    }

    /// True when the held environment's snapshots cannot fail.
    pub closed spec fn snapshots_total(&self) -> bool {
        self.environment.closure_total()
    }

    /// A REPL over the given environment and roll source.
    pub fn with_parts(environment: E, rng: R) -> (r: REPL<E, R>)
        requires
            environment.inv(),
        ensures
            r.env_inv(),
            r.scopes() == environment.scopes(),
            r.min_source() == rng.always_min(),
            r.snapshots_total() == environment.closure_total(),
    {
        REPL { parser: StatementParser, rng, environment }
    }

    /// Handles one input line: a line that does not parse answers
    /// `failed to parse`; a parsed statement is evaluated and its answer or
    /// evaluation error returned.  Under an `always_min` source and a store
    /// with total snapshots the answer is exactly the model's.
    /// A snapshot of the bindings visible under `ctx`'s user key, as
    /// `Environment::closure` gives it; front-ends that persist the
    /// environment elsewhere read the state to store through this.
    pub fn snapshot(&self, ctx: &REPLContext) -> (r: Result<crate::environments::VarMap, ()>)
        requires
            self.env_inv(),
        ensures
            self.snapshots_total() ==> r is Ok,
            (r matches Ok(m) ==> m.wf() && m.as_map() == scope_of(
                self.scopes(),
                ctx.user_key(),
            )),
    {
        self.environment.closure(ctx)
    }

    pub fn exec(&mut self, ctx: &REPLContext, input: &str) -> (r: Result<String, RollerError>)
        requires
            old(self).env_inv(),
        ensures
            final(self).env_inv(),
            final(self).snapshots_total() == old(self).snapshots_total(),
            parse_stmt(input@) is None ==> (r matches Err(e) && e.view() == ErrV::Parser(
                "failed to parse"@,
            ) && final(self).scopes() == old(self).scopes()),
            (parse_stmt(input@) matches Some(st) && st is PrintEnv) ==> ((r matches Ok(s)
                && s@.len() > 0) && final(self).scopes() == old(self).scopes()),
            !(parse_stmt(input@) matches Some(st) && st is SetValue) ==> final(self).scopes()
                == old(self).scopes(),
            old(self).min_source() && old(self).snapshots_total() && (parse_stmt(input@)
                matches Some(st) && !(st is PrintEnv)) ==> final(self).min_source() && ({
                let st = parse_stmt(input@).unwrap();
                let out = min_eval_stmt(
                    st,
                    scope_of(old(self).scopes(), ctx.user_key()),
                    MAX_CALL_DEPTH as nat,
                );
                str_res_view(r) == out.0 && final(self).scopes() == (if st is SetValue && r
                    is Ok {
                    old(self).scopes().insert(ctx.user_key(), out.1)
                } else {
                    old(self).scopes()
                })
            }),
    {
        match self.parser.parse(input) {
            Ok(ast) => eval_statement(&mut self.rng, &mut self.environment, ctx, &ast),
            Err(_) => Err(RollerError::ParserError(String::from_str("failed to parse"))),
        }
    }
}

} // verus!
