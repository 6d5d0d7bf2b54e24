//! The renderable tree: the executable nodes parsing produces, the
//! mathematical interpreter that defines what rendering them means,
//! and the single depth-first render pass proved against it.
use vstd::prelude::*;

use crate::context::reg_get;
use crate::context::reg_text;
use crate::context::Context;
use crate::context::CtxV;
use crate::context::Interrupt;
use crate::error::Error;
use crate::expression::eval_in;
use crate::expression::Expression;
use crate::filters::input_elems;
use crate::filters::seq_of_input;
use crate::filters::spec_filter_apply;
use crate::filters::BoundFilter;
use crate::value::str_of;
use crate::value::truthy;
use crate::value::val_cmp;
use crate::value::vals_of;
use crate::value::Cmp;
use crate::value::Val;
use crate::value::Value;

verus! {

broadcast use vstd::std_specs::vec::group_vec_axioms;

/// A comparison operator of a conditional construct.
#[derive(Clone, Copy, Debug, PartialEq, Eq, Structural)]
pub enum CompareOp {
    Eq,
    Ne,
    Lt,
    Gt,
    Le,
    Ge,
}

/// The condition a conditional construct tests.
#[derive(Debug)]
pub enum Condition {
    Truthy(Expression),
    Compare(Expression, CompareOp, Expression),
}

/// Whether a condition holds against a modelled scope stack: a bare
/// expression by its truthiness, a comparison by the value ordering,
/// with incomparable pairs failing every ordering test.
pub open spec fn cond_in(c: &Condition, scopes: Seq<Seq<(Seq<char>, Val)>>) -> bool {
    match c {
        Condition::Truthy(e) => truthy(eval_in(e@, scopes)),
        Condition::Compare(l, op, r) => {
            let lv = eval_in(l@, scopes);
            let rv = eval_in(r@, scopes);
            match op {
                CompareOp::Eq => lv == rv,
                CompareOp::Ne => lv != rv,
                CompareOp::Lt => val_cmp(lv, rv) == Some(Cmp::Less),
                CompareOp::Gt => val_cmp(lv, rv) == Some(Cmp::Greater),
                CompareOp::Le => val_cmp(lv, rv) == Some(Cmp::Less) || val_cmp(lv, rv) == Some(
                    Cmp::Equal,
                ),
                CompareOp::Ge => val_cmp(lv, rv) == Some(Cmp::Greater) || val_cmp(lv, rv) == Some(
                    Cmp::Equal,
                ),
            }
        },
    }
}

/// Whether a condition holds in a context.
pub open spec fn cond_holds(c: &Condition, ctx: &Context) -> bool {
    cond_in(c, ctx@.scopes)
}

/// Evaluates a condition against the context.
pub fn eval_condition(c: &Condition, ctx: &Context) -> (r: bool)
    ensures
        r == cond_holds(c, ctx),
{
    match c {
        Condition::Truthy(e) => e.evaluate(ctx).is_truthy(),
        Condition::Compare(l, op, r) => {
            let lv = l.evaluate(ctx);
            let rv = r.evaluate(ctx);
            match op {
                CompareOp::Eq => lv.equals(&rv),
                CompareOp::Ne => !lv.equals(&rv),
                CompareOp::Lt => matches!(crate::value::value_compare(&lv, &rv), Some(Cmp::Less)),
                CompareOp::Gt => matches!(
                    crate::value::value_compare(&lv, &rv),
                    Some(Cmp::Greater),
                ),
                CompareOp::Le => matches!(
                    crate::value::value_compare(&lv, &rv),
                    Some(Cmp::Less) | Some(Cmp::Equal),
                ),
                CompareOp::Ge => matches!(
                    crate::value::value_compare(&lv, &rv),
                    Some(Cmp::Greater) | Some(Cmp::Equal),
                ),
            }
        },
    }
}

/// An output expression with its filter chain.
#[derive(Debug)]
pub struct OutputNode {
    pub expr: Expression,
    pub filters: Vec<BoundFilter>,
}

/// What a loop iterates over: an inclusive integer range or the
/// elements of an evaluated collection.
#[derive(Debug)]
pub enum Iterable {
    Range(Expression, Expression),
    Collection(Expression),
}

/// A loop construct: a variable bound afresh in a new scope on every
/// iteration over a body.
#[derive(Debug)]
pub struct ForNode {
    pub var: String,
    pub iterable: Iterable,
    pub body: Vec<Node>,
}

/// A conditional construct: a body rendered when the condition holds.
#[derive(Debug)]
pub struct IfNode {
    pub condition: Condition,
    pub body: Vec<Node>,
}

/// A changed-text construct: its body's text is emitted only when it
/// differs from what this same construct emitted last, tracked in a
/// register keyed by the construct's identity.
#[derive(Debug)]
pub struct IfChangedNode {
    pub id: u64,
    pub body: Vec<Node>,
}

/// One executable node of the compiled tree.
#[derive(Debug)]
pub enum Node {
    Text(String),
    Output(OutputNode),
    Break,
    Continue,
    For(ForNode),
    Cond(IfNode),
    IfChanged(IfChangedNode),
}

/// The compiled tree of one template, immutable once built and
/// renderable any number of times.
#[derive(Debug)]
pub struct Template {
    pub nodes: Vec<Node>,
}

// ---------------------------------------------------------------------------
// The mathematical interpreter
// ---------------------------------------------------------------------------

/// The outcome of rendering something: whether it succeeded, the text
/// it appended to the sink, and the context it left behind.
pub struct RenderStep {
    pub ok: bool,
    pub text: Seq<char>,
    pub ctx: CtxV,
}

/// A context with a fresh innermost scope.
pub open spec fn ctx_push(c: CtxV) -> CtxV {
    CtxV { scopes: c.scopes.push(Seq::empty()), regs: c.regs, interrupt: c.interrupt }
}

/// A context with its innermost scope popped.
pub open spec fn ctx_pop(c: CtxV) -> CtxV {
    CtxV { scopes: c.scopes.drop_last(), regs: c.regs, interrupt: c.interrupt }
}

/// A context with a name bound in its innermost scope.
pub open spec fn ctx_bind(c: CtxV, name: Seq<char>, v: Val) -> CtxV {
    CtxV {
        scopes: c.scopes.update(c.scopes.len() - 1, seq![(name, v)] + c.scopes.last()),
        regs: c.regs,
        interrupt: c.interrupt,
    }
}

/// A context with the control signal set.
pub open spec fn ctx_signal(c: CtxV, i: Interrupt) -> CtxV {
    CtxV { scopes: c.scopes, regs: c.regs, interrupt: i }
}

/// The value an output expression's filter chain yields from position
/// `i` on, or nothing once a filter rejects its input.
pub open spec fn spec_filter_chain(
    filters: &Vec<BoundFilter>,
    i: int,
    v: Val,
    scopes: Seq<Seq<(Seq<char>, Val)>>,
) -> Option<Val>
    decreases filters.len() - i,
{
    if i < 0 || i >= filters.len() {
        Some(v)
    } else {
        match spec_filter_apply(&filters[i], v, scopes) {
            Some(v2) => spec_filter_chain(filters, i + 1, v2, scopes),
            None => None,
        }
    }
}

/// The integer values of an inclusive range, in ascending order.
pub open spec fn int_range_vals(a: int, b: int) -> Seq<Val>
    decreases b + 1 - a,
{
    if a > b {
        Seq::empty()
    } else {
        seq![Val::Int(a)] + int_range_vals(a + 1, b)
    }
}

/// The values a loop iterates over, or nothing when a range bound is
/// not an integer.
pub open spec fn spec_iter_values(
    it: &Iterable,
    scopes: Seq<Seq<(Seq<char>, Val)>>,
) -> Option<Seq<Val>> {
    match it {
        Iterable::Range(lo, hi) => {
            let l = eval_in(lo@, scopes);
            let h = eval_in(hi@, scopes);
            if l is Int && h is Int {
                Some(int_range_vals(l->Int_0, h->Int_0))
            } else {
                None
            }
        },
        Iterable::Collection(e) => Some(seq_of_input(eval_in(e@, scopes))),
    }
}

/// What rendering one node means. A text node emits its text; `break`
/// and `continue` raise their signal; an output threads its value
/// through the filter chain and emits its text; a loop renders its
/// body once per element with the variable bound in a fresh scope; a
/// conditional renders its body when the condition holds; a
/// changed-text construct emits its body's text exactly when it
/// differs from the construct's register, recording it either way.
/// Composites are inert under a pending signal.
pub open spec fn spec_render(n: &Node, c: CtxV) -> RenderStep
    decreases n, 0int, 0int,
{
    match n {
        Node::Text(t) => RenderStep { ok: true, text: t@, ctx: c },
        Node::Break => RenderStep {
            ok: true,
            text: Seq::empty(),
            ctx: ctx_signal(c, Interrupt::Break),
        },
        Node::Continue => RenderStep {
            ok: true,
            text: Seq::empty(),
            ctx: ctx_signal(c, Interrupt::Continue),
        },
        Node::Output(o) => match spec_filter_chain(
            &o.filters,
            0,
            eval_in(o.expr@, c.scopes),
            c.scopes,
        ) {
            Some(v) => RenderStep { ok: true, text: str_of(v), ctx: c },
            None => RenderStep { ok: false, text: Seq::empty(), ctx: c },
        },
        Node::For(f) => {
            if c.interrupt != Interrupt::Running {
                RenderStep { ok: true, text: Seq::empty(), ctx: c }
            } else {
                match spec_iter_values(&f.iterable, c.scopes) {
                    None => RenderStep { ok: false, text: Seq::empty(), ctx: c },
                    Some(values) => {
                        let s = spec_render_loop(&f.body, f.var@, values, ctx_push(c));
                        RenderStep { ok: s.ok, text: s.text, ctx: ctx_pop(s.ctx) }
                    },
                }
            }
        },
        Node::Cond(nd) => {
            if c.interrupt != Interrupt::Running {
                RenderStep { ok: true, text: Seq::empty(), ctx: c }
            } else if cond_in(&nd.condition, c.scopes) {
                spec_render_nodes(&nd.body, 0, c)
            } else {
                RenderStep { ok: true, text: Seq::empty(), ctx: c }
            }
        },
        Node::IfChanged(nd) => {
            if c.interrupt != Interrupt::Running {
                RenderStep { ok: true, text: Seq::empty(), ctx: c }
            } else {
                let s = spec_render_nodes(&nd.body, 0, c);
                if !s.ok {
                    RenderStep { ok: false, text: Seq::empty(), ctx: s.ctx }
                } else {
                    let changed = reg_text(s.ctx.regs, nd.id) != Some(Some(s.text));
                    RenderStep {
                        ok: true,
                        text: if changed {
                            s.text
                        } else {
                            Seq::empty()
                        },
                        ctx: CtxV {
                            scopes: s.ctx.scopes,
                            regs: seq![(nd.id, Some(s.text))] + s.ctx.regs,
                            interrupt: s.ctx.interrupt,
                        },
                    }
                }
            }
        },
    }
}

/// What rendering siblings from position `i` on means: children in
/// order, their texts concatenated, stopping before the next sibling
/// once the signal leaves Running — and nothing at all under a signal
/// already pending.
pub open spec fn spec_render_nodes(v: &Vec<Node>, i: int, c: CtxV) -> RenderStep
    decreases v, 0int, v.len() - i,
{
    if c.interrupt != Interrupt::Running {
        RenderStep { ok: true, text: Seq::empty(), ctx: c }
    } else if i < 0 || i >= v.len() {
        RenderStep { ok: true, text: Seq::empty(), ctx: c }
    } else {
        let s = spec_render(&v[i], c);
        if !s.ok {
            s
        } else if s.ctx.interrupt != Interrupt::Running {
            RenderStep { ok: true, text: s.text, ctx: s.ctx }
        } else {
            let rest = spec_render_nodes(v, i + 1, s.ctx);
            RenderStep { ok: rest.ok, text: s.text + rest.text, ctx: rest.ctx }
        }
    }
}

/// What one loop pass over the remaining values means: the variable
/// bound over the body per element; a body error stops the loop; a
/// `break` ends it, clearing the signal; a `continue` abandons only
/// the rest of the current element's body, clearing the signal and
/// advancing.
pub open spec fn spec_render_loop(
    body: &Vec<Node>,
    var: Seq<char>,
    values: Seq<Val>,
    c: CtxV,
) -> RenderStep
    decreases body, 1int, values.len(),
{
    if values.len() == 0 {
        RenderStep { ok: true, text: Seq::empty(), ctx: c }
    } else {
        let s = spec_render_nodes(body, 0, ctx_bind(c, var, values[0]));
        if !s.ok {
            s
        } else if s.ctx.interrupt == Interrupt::Break {
            RenderStep { ok: true, text: s.text, ctx: ctx_signal(s.ctx, Interrupt::Running) }
        } else if s.ctx.interrupt == Interrupt::Continue {
            let rest = spec_render_loop(
                body,
                var,
                values.skip(1),
                ctx_signal(s.ctx, Interrupt::Running),
            );
            RenderStep { ok: rest.ok, text: s.text + rest.text, ctx: rest.ctx }
        } else {
            let rest = spec_render_loop(body, var, values.skip(1), s.ctx);
            RenderStep { ok: rest.ok, text: s.text + rest.text, ctx: rest.ctx }
        }
    }
}

impl Node {
    /// Renders one node exactly as the interpreter defines it: the
    /// result, the appended text and the final context all match
    /// `spec_render`. The scope stack is always restored, registers
    /// are never dropped, and errors never leave a signal raised.
    #[verifier::loop_isolation(false)]
    #[verifier::rlimit(100)]
    #[verifier::spinoff_prover]
    pub fn render_to(&self, sink: &mut String, ctx: &mut Context) -> (r: Result<(), Error>)
        ensures
            r is Ok == spec_render(self, old(ctx)@).ok,
            final(sink)@ == old(sink)@ + spec_render(self, old(ctx)@).text,
            final(ctx)@ == spec_render(self, old(ctx)@).ctx,
            old(sink)@.is_prefix_of(final(sink)@),
            final(ctx).scope_stack() == old(ctx).scope_stack(),
            forall|id: u64|
                reg_get(old(ctx).registers_of(), id) is Some ==> reg_get(
                    final(ctx).registers_of(),
                    id,
                ) is Some,
            old(ctx).interrupt_of() == Interrupt::Running && r is Err ==> final(ctx).interrupt_of() == Interrupt::Running,
        decreases self, 0int, 0int,
    {
        proof {
            assert(old(sink)@ + Seq::<char>::empty() =~= old(sink)@);
        }
        match self {
            Node::Text(t) => {
                sink.append(t.as_str());
                proof {
                    assert(old(sink)@.is_prefix_of(sink@));
                }
                Ok(())
            },
            Node::Break => {
                ctx.set_interrupt(Interrupt::Break);
                Ok(())
            },
            Node::Continue => {
                ctx.set_interrupt(Interrupt::Continue);
                Ok(())
            },
            Node::Output(o) => {
                let ghost scopes = old(ctx)@.scopes;
                let mut value = o.expr.evaluate(ctx);
                let ghost start = value@;
                let mut fi: usize = 0;
                while fi < o.filters.len()
                    invariant
                        0 <= fi <= o.filters.len(),
                        spec_filter_chain(&o.filters, 0, start, scopes) == spec_filter_chain(
                            &o.filters,
                            fi as int,
                            value@,
                            scopes,
                        ),
                    decreases o.filters.len() - fi,
                {
                    match o.filters[fi].evaluate(&value, ctx) {
                        Ok(v) => {
                            value = v;
                        },
                        Err(e) => {
                            return Err(e.traced(String::from_str("output")));
                        },
                    }
                    fi += 1;
                }
                let text = value.to_str();
                sink.append(text.as_str());
                proof {
                    assert(old(sink)@.is_prefix_of(sink@));
                }
                Ok(())
            },
            Node::For(f) => {
                let ghost c0 = old(ctx)@;
                if !matches!(ctx.interrupt(), Interrupt::Running) {
                    return Ok(());
                }
                let values: Vec<Value> = match &f.iterable {
                    Iterable::Range(lo, hi) => {
                        let lov = lo.evaluate(ctx);
                        let hiv = hi.evaluate(ctx);
                        match (lov, hiv) {
                            (Value::Int(a), Value::Int(b)) => {
                                let mut vs: Vec<Value> = Vec::new();
                                proof {
                                    assert(vals_of(&vs) =~= Seq::<Val>::empty());
                                }
                                if a <= b {
                                    let mut j = a;
                                    while j < b
                                        invariant
                                            a <= j <= b,
                                            int_range_vals(a as int, b as int) == vals_of(&vs)
                                                + int_range_vals(j as int, b as int),
                                        decreases b - j,
                                    {
                                        let ghost pre = vals_of(&vs);
                                        vs.push(Value::Int(j));
                                        proof {
                                            assert(vals_of(&vs) =~= pre.push(Val::Int(j as int)));
                                            assert(pre + (seq![Val::Int(j as int)]
                                                + int_range_vals(j as int + 1, b as int)) =~= pre
                                                .push(Val::Int(j as int)) + int_range_vals(
                                                j as int + 1,
                                                b as int,
                                            ));
                                        }
                                        j = j + 1;
                                    }
                                    let ghost pre = vals_of(&vs);
                                    vs.push(Value::Int(b));
                                    proof {
                                        assert(vals_of(&vs) =~= pre.push(Val::Int(b as int)));
                                        assert(int_range_vals(b as int + 1, b as int) =~= Seq::<
                                            Val,
                                        >::empty());
                                        assert(int_range_vals(b as int, b as int) =~= seq![
                                            Val::Int(b as int)]);
                                        assert(pre + seq![Val::Int(b as int)] =~= pre.push(
                                            Val::Int(b as int),
                                        ));
                                    }
                                } else {
                                    proof {
                                        assert(int_range_vals(a as int, b as int) =~= Seq::<
                                            Val,
                                        >::empty());
                                    }
                                }
                                vs
                            },
                            _ => {
                                return Err(
                                    Error::render(
                                        String::from_str("integer range bounds expected"),
                                    ),
                                );
                            },
                        }
                    },
                    Iterable::Collection(e) => {
                        let v = e.evaluate(ctx);
                        input_elems(&v)
                    },
                };
                let ghost vspec = spec_iter_values(&f.iterable, c0.scopes)->Some_0;
                proof {
                    assert(vals_of(&values) == vspec);
                }
                let ghost big = spec_render_loop(&f.body, f.var@, vspec, ctx_push(c0));
                ctx.push_scope();
                proof {
                    crate::context::lemma_scopes_len(old(ctx));
                    crate::context::lemma_scopes_len(ctx);
                    assert(ctx@ == ctx_push(c0));
                    assert(vspec.skip(0) =~= vspec);
                    assert(sink@.skip(old(sink)@.len() as int) =~= Seq::<char>::empty());
                    assert(Seq::<char>::empty() + big.text =~= big.text);
                }
                let ghost entry_stack = old(ctx).scope_stack();
                let mut idx: usize = 0;
                let mut stopped = false;
                while idx < values.len() && !stopped
                    invariant
                        0 <= idx <= values.len(),
                        values.len() == vspec.len(),
                        vals_of(&values) == vspec,
                        ctx.scope_stack().len() == entry_stack.len() + 1,
                        ctx.scope_stack().drop_last() == entry_stack,
                        ctx@.scopes.len() == c0.scopes.len() + 1,
                        ctx@.interrupt == Interrupt::Running,
                        old(sink)@.is_prefix_of(sink@),
                        !stopped ==> ({
                            let rest = spec_render_loop(
                                &f.body,
                                f.var@,
                                vspec.skip(idx as int),
                                ctx@,
                            );
                            big.ok == rest.ok && big.text == sink@.skip(old(sink)@.len() as int)
                                + rest.text && big.ctx == rest.ctx
                        }),
                        stopped ==> big.ok && big.text == sink@.skip(old(sink)@.len() as int)
                            && big.ctx == ctx@,
                        forall|id: u64|
                            reg_get(old(ctx).registers_of(), id) is Some ==> reg_get(
                                ctx.registers_of(),
                                id,
                            ) is Some,
                    decreases values.len() - idx,
                {
                    let ghost c_iter = ctx@;
                    proof {
                        assert(vspec.skip(idx as int)[0] == vspec[idx as int]);
                        assert(vspec.skip(idx as int).skip(1) =~= vspec.skip(idx as int + 1));
                        assert(vspec.skip(idx as int).len() > 0);
                    }
                    ctx.set_local(f.var.clone(), values[idx].clone());
                    proof {
                        assert(values[idx as int]@ == vspec[idx as int]);
                        assert(ctx@ == ctx_bind(c_iter, f.var@, vspec[idx as int]));
                    }
                    let ghost sink_pre = sink@;
                    match render_nodes(&f.body, sink, ctx) {
                        Ok(()) => {},
                        Err(e) => {
                            ctx.pop_scope();
                            proof {
                                assert(ctx.scope_stack() =~= entry_stack);
                                assert(sink@.skip(old(sink)@.len() as int) =~= sink_pre.skip(
                                    old(sink)@.len() as int,
                                ) + spec_render_nodes(
                                    &f.body,
                                    0,
                                    ctx_bind(c_iter, f.var@, vspec[idx as int]),
                                ).text);
                            }
                            return Err(e.traced(String::from_str("for")));
                        },
                    }
                    proof {
                        crate::context::lemma_scopes_len(ctx);
                        assert(sink@.skip(old(sink)@.len() as int) =~= sink_pre.skip(
                            old(sink)@.len() as int,
                        ) + spec_render_nodes(
                            &f.body,
                            0,
                            ctx_bind(c_iter, f.var@, vspec[idx as int]),
                        ).text);
                    }
                    match ctx.interrupt() {
                        Interrupt::Break => {
                            ctx.reset_interrupt();
                            stopped = true;
                        },
                        Interrupt::Continue => {
                            ctx.reset_interrupt();
                        },
                        Interrupt::Running => {},
                    }
                    idx += 1;
                }
                proof {
                    if !stopped {
                        assert(vspec.skip(idx as int).len() == 0);
                    }
                }
                ctx.pop_scope();
                proof {
                    assert(ctx.scope_stack() =~= entry_stack);
                    assert(ctx@ == ctx_pop(big.ctx));
                }
                Ok(())
            },
            Node::Cond(n) => {
                if !matches!(ctx.interrupt(), Interrupt::Running) {
                    return Ok(());
                }
                let holds = eval_condition(&n.condition, ctx);
                if holds {
                    match render_nodes(&n.body, sink, ctx) {
                        Ok(()) => Ok(()),
                        Err(e) => Err(e.traced(String::from_str("if"))),
                    }
                } else {
                    Ok(())
                }
            },
            Node::IfChanged(n) => {
                if !matches!(ctx.interrupt(), Interrupt::Running) {
                    return Ok(());
                }
                let mut buffer = String::new();
                match render_nodes(&n.body, &mut buffer, ctx) {
                    Ok(()) => {},
                    Err(e) => {
                        return Err(e.traced(String::from_str("ifchanged")));
                    },
                }
                proof {
                    assert(buffer@ =~= spec_render_nodes(&n.body, 0, old(ctx)@).text);
                }
                let changed = ctx.register_has_changed(n.id, &buffer);
                if changed {
                    sink.append(buffer.as_str());
                }
                proof {
                    assert(old(sink)@.is_prefix_of(sink@));
                }
                Ok(())
            },
        }
    }
}

/// Renders a sequence of sibling nodes in order, exactly as the
/// interpreter defines it: children render in order with their texts
/// concatenated, stopping before the next sibling as soon as a signal
/// is raised, and doing nothing when one is already pending on entry.
#[verifier::loop_isolation(false)]
#[verifier::rlimit(100)]
#[verifier::spinoff_prover]
pub fn render_nodes(nodes: &Vec<Node>, sink: &mut String, ctx: &mut Context) -> (r: Result<
    (),
    Error,
>)
    ensures
        r is Ok == spec_render_nodes(nodes, 0, old(ctx)@).ok,
        final(sink)@ == old(sink)@ + spec_render_nodes(nodes, 0, old(ctx)@).text,
        final(ctx)@ == spec_render_nodes(nodes, 0, old(ctx)@).ctx,
        old(sink)@.is_prefix_of(final(sink)@),
        final(ctx).scope_stack() == old(ctx).scope_stack(),
        forall|id: u64|
            reg_get(old(ctx).registers_of(), id) is Some ==> reg_get(
                final(ctx).registers_of(),
                id,
            ) is Some,
        old(ctx).interrupt_of() == Interrupt::Running && r is Err ==> final(ctx).interrupt_of()
            == Interrupt::Running,
    decreases nodes, 0int, 0int,
{
    proof {
        assert(old(sink)@ + Seq::<char>::empty() =~= old(sink)@);
    }
    let ghost big = spec_render_nodes(nodes, 0, old(ctx)@);
    if !matches!(ctx.interrupt(), Interrupt::Running) {
        return Ok(());
    }
    let mut i: usize = 0;
    while i < nodes.len()
        invariant
            0 <= i <= nodes.len(),
            old(sink)@.is_prefix_of(sink@),
            ctx.scope_stack() == old(ctx).scope_stack(),
            forall|id: u64|
                reg_get(old(ctx).registers_of(), id) is Some ==> reg_get(
                    ctx.registers_of(),
                    id,
                ) is Some,
            ctx@.interrupt == Interrupt::Running,
            ({
                let rest = spec_render_nodes(nodes, i as int, ctx@);
                big.ok == rest.ok && big.text == sink@.skip(old(sink)@.len() as int) + rest.text
                    && big.ctx == rest.ctx
            }),
        decreases nodes.len() - i,
    {
        let ghost c_here = ctx@;
        let ghost sink_pre = sink@;
        match nodes[i].render_to(sink, ctx) {
            Ok(()) => {},
            Err(e) => {
                proof {
                    assert(sink@.skip(old(sink)@.len() as int) =~= sink_pre.skip(
                        old(sink)@.len() as int,
                    ) + spec_render(&nodes[i as int], c_here).text);
                }
                return Err(e);
            },
        }
        proof {
            assert(sink@.skip(old(sink)@.len() as int) =~= sink_pre.skip(old(sink)@.len() as int)
                + spec_render(&nodes[i as int], c_here).text);
        }
        if !matches!(ctx.interrupt(), Interrupt::Running) {
            return Ok(());
        }
        i += 1;
    }
    Ok(())
}

impl Template {
    /// A tree over the given nodes.
    pub fn new(nodes: Vec<Node>) -> (r: Template)
        ensures
            r.nodes == nodes,
    {
        Template { nodes }
    }

    /// Renders the whole tree into the sink, exactly as the
    /// interpreter defines it; at this top level a stray `break` or
    /// `continue` stops the remaining siblings but is inert rather
    /// than an error.
    pub fn render_to(&self, sink: &mut String, ctx: &mut Context) -> (r: Result<(), Error>)
        ensures
            r is Ok == spec_render_nodes(&self.nodes, 0, old(ctx)@).ok,
            final(sink)@ == old(sink)@ + spec_render_nodes(&self.nodes, 0, old(ctx)@).text,
            final(ctx)@ == spec_render_nodes(&self.nodes, 0, old(ctx)@).ctx,
            old(sink)@.is_prefix_of(final(sink)@),
            final(ctx).scope_stack() == old(ctx).scope_stack(),
            forall|id: u64|
                reg_get(old(ctx).registers_of(), id) is Some ==> reg_get(
                    final(ctx).registers_of(),
                    id,
                ) is Some,
    {
        render_nodes(&self.nodes, sink, ctx)
    }

    /// Renders the whole tree into a fresh string, exactly as the
    /// interpreter defines it.
    pub fn render(&self, ctx: &mut Context) -> (r: Result<String, Error>)
        ensures
            r is Ok == spec_render_nodes(&self.nodes, 0, old(ctx)@).ok,
            r matches Ok(out) ==> out@ == spec_render_nodes(&self.nodes, 0, old(ctx)@).text,
            final(ctx)@ == spec_render_nodes(&self.nodes, 0, old(ctx)@).ctx,
            final(ctx).scope_stack() == old(ctx).scope_stack(),
    {
        let mut sink = String::new();
        proof {
            assert(Seq::<char>::empty() + spec_render_nodes(&self.nodes, 0, old(ctx)@).text
                =~= spec_render_nodes(&self.nodes, 0, old(ctx)@).text);
        }
        match self.render_to(&mut sink, ctx) {
            Ok(()) => Ok(sink),
            Err(e) => Err(e),
        }
    }
}

} // verus!
