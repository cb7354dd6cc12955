//! The explicit call/return stack that drives iterative expression
//! evaluation.
//!
//! The call stack holds `(waiting, expression)` entries; the top entry is the
//! node in focus.  A composite node is first expanded: it is marked waiting
//! and its children are pushed above it, so children are evaluated before
//! their parent.  The return stack collects fully reduced child values for
//! the waiting parent to pop.
use crate::types::{ExprV, Expression};
use vstd::prelude::*;

verus! {

/// What the driver loop should do after offering children to the stack:
/// `Wait` means the children were scheduled and must run first; `Continue`
/// means the node in focus is ready to be reduced.
#[derive(Debug, Clone, PartialEq, Eq, Structural)]
pub enum Control {
    Continue,
    Wait,
}

struct Call {
    waiting: bool,
    expr: Expression,
}

/// A pair of stacks: pending calls and reduced return values.
pub struct ControlStack {
    call_stack: Vec<Call>,
    return_stack: Vec<Expression>,
}

impl ControlStack {
    /// The call stack as a sequence of `(waiting, expression view)` pairs,
    /// bottom first.
    pub closed spec fn calls(&self) -> Seq<(bool, ExprV)> {
        self.call_stack@.map_values(|c: Call| (c.waiting, c.expr.view()))
    }

    /// The return stack as a sequence of expression views, bottom first.
    pub closed spec fn rets(&self) -> Seq<ExprV> {
        self.return_stack@.map_values(|e: Expression| e.view())
    }

    /// A stack whose single pending call is `first_expr`, not yet expanded.
    pub fn new(first_expr: Expression) -> (r: ControlStack)
        ensures
            r.calls() =~= seq![(false, first_expr.view())],
            r.rets() =~= Seq::<ExprV>::empty(),
    {
        let mut call_stack: Vec<Call> = Vec::new();
        call_stack.push(Call { waiting: false, expr: first_expr });
        ControlStack { call_stack, return_stack: Vec::new() }
    }

    /// The number of pending calls.
    pub fn size_call(&self) -> (n: usize)
        ensures
            n == self.calls().len(),
    {
        self.call_stack.len()
    }

    /// The number of return values held.
    pub fn size_return(&self) -> (n: usize)
        ensures
            n == self.rets().len(),
    {
        self.return_stack.len()
    }

    /// Pushes a reduced value onto the return stack.
    pub fn push_return(&mut self, expr: Expression)
        ensures
            final(self).calls() == old(self).calls(),
            final(self).rets() =~= old(self).rets().push(expr.view()),
    {
        self.return_stack.push(expr);
    }

    /// Pops the newest return value; fails on an empty return stack.
    pub fn pop_return(&mut self) -> (r: Result<Expression, ()>)
        ensures
            final(self).calls() == old(self).calls(),
            old(self).rets().len() == 0 ==> r is Err && final(self).rets() == old(self).rets(),
            old(self).rets().len() > 0 ==> (r matches Ok(e) && e.view() == old(
                self,
            ).rets().last() && final(self).rets() =~= old(self).rets().drop_last()),
    {
        match self.return_stack.pop() {
            Some(expr) => Ok(expr),
            None => Err(()),
        }
    }

    /// Pops the newest call, returning its expression; fails on an empty
    /// call stack.
    pub fn pop_call(&mut self) -> (r: Result<Expression, ()>)
        ensures
            final(self).rets() == old(self).rets(),
            old(self).calls().len() == 0 ==> r is Err && final(self).calls() == old(self).calls(),
            old(self).calls().len() > 0 ==> (r matches Ok(e) && e.view() == old(
                self,
            ).calls().last().1 && final(self).calls() =~= old(self).calls().drop_last()),
    {
        match self.call_stack.pop() {
            Some(call) => Ok(call.expr),
            None => Err(()),
        }
    }

    /// Returns a copy of the newest call's expression without removing it;
    /// fails on an empty call stack.
    pub fn peek_call(&self) -> (r: Result<Expression, ()>)
        ensures
            self.calls().len() == 0 ==> r is Err,
            self.calls().len() > 0 ==> (r matches Ok(e) && e.view() == self.calls().last().1),
    {
        if self.call_stack.len() == 0 {
            Err(())
        } else {
            let c = &self.call_stack[self.call_stack.len() - 1];
            Ok(c.expr.duplicate())
        }
    }

    /// Offers the children of the newest call to the stack.  If that call is
    /// not yet waiting it becomes waiting, its children are pushed above it
    /// in source order (so the last child runs first), and the caller must
    /// `Wait`; if it is already waiting its children have run, and the
    /// caller may `Continue` to reduce it.  An empty call stack continues.
    pub fn push_to_call_stack(&mut self, child_exprs: &[Expression]) -> (r: Control)
        ensures
            final(self).rets() == old(self).rets(),
            old(self).calls().len() == 0 ==> r == Control::Continue && final(self).calls() == old(
                self,
            ).calls(),
            old(self).calls().len() > 0 && old(self).calls().last().0 ==> r == Control::Continue
                && final(self).calls() =~= old(self).calls(),
            old(self).calls().len() > 0 && !old(self).calls().last().0 ==> r == Control::Wait
                && final(self).calls() =~= old(self).calls().drop_last().push(
                (true, old(self).calls().last().1),
            ) + crate::types::view_seq(child_exprs@).map_values(|v: ExprV| (false, v)),
    {
        match self.call_stack.pop() {
            Some(call) => {
                if call.waiting {
                    self.call_stack.push(call);
                    proof {
                        assert(self.call_stack@ =~= old(self).call_stack@);
                    }
                    Control::Continue
                } else {
                    self.call_stack.push(Call { waiting: true, expr: call.expr });
                    let ghost base = self.calls();
                    let mut i: usize = 0;
                    while i < child_exprs.len()
                        invariant
                            i <= child_exprs.len(),
                            self.rets() == old(self).rets(),
                            self.calls() =~= base + crate::types::view_seq(
                                child_exprs@.subrange(0, i as int),
                            ).map_values(|v: ExprV| (false, v)),
                        decreases child_exprs.len() - i,
                    {
                        let ghost prev = self.calls();
                        let child = child_exprs[i].duplicate();
                        self.call_stack.push(Call { waiting: false, expr: child });
                        proof {
                            let sub0 = child_exprs@.subrange(0, i as int);
                            let sub1 = child_exprs@.subrange(0, i + 1 as int);
                            assert(self.calls() =~= prev.push((false, child.view())));
                            assert(sub1.drop_last() =~= sub0);
                            assert(crate::types::view_seq(sub1) == crate::types::view_seq(
                                sub0,
                            ).push(sub1.last().view()));
                            assert(sub1.last() == child_exprs@[i as int]);
                            assert(base + crate::types::view_seq(sub1).map_values(
                                |v: ExprV| (false, v),
                            ) =~= (base + crate::types::view_seq(sub0).map_values(
                                |v: ExprV| (false, v),
                            )).push((false, child_exprs@[i as int].view())));
                            assert(self.calls() =~= base + crate::types::view_seq(
                                sub1,
                            ).map_values(|v: ExprV| (false, v)));
                        }
                        i = i + 1;
                    }
                    proof {
                        assert(child_exprs@.subrange(0, child_exprs@.len() as int)
                            =~= child_exprs@);
                    }
                    Control::Wait
                }
            },
            None => Control::Continue,
        }
    }
}

} // verus!
