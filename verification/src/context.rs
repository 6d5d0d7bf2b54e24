//! The interpreter context threaded through rendering: a stack of
//! variable scopes, the per-construct private state store
//! ("registers"), and the current non-local control signal.
use vstd::prelude::*;

use crate::value::Val;
use crate::value::Value;

verus! {

broadcast use vstd::std_specs::vec::group_vec_axioms;

/// The non-local control signal: running normally, or unwinding to the
/// innermost loop because of a `break` or a `continue`.
#[derive(Clone, Copy, Debug, PartialEq, Eq, Structural)]
pub enum Interrupt {
    Running,
    Break,
    Continue,
}

/// Per-construct private state: the text a construct last rendered.
#[derive(Debug)]
pub struct State {
    pub last_rendered: Option<String>,
}

impl Clone for State {
    /// A copy with the same last rendered text.
    fn clone(&self) -> (r: Self)
        ensures
            r.last_of() == self.last_of(),
    {
        match &self.last_rendered {
            Some(s) => State { last_rendered: Some(s.clone()) },
            None => State { last_rendered: None },
        }
    }
}

impl State {
    /// The model of this state: the last rendered text, if any.
    pub open spec fn last_of(&self) -> Option<Seq<char>> {
        match self.last_rendered {
            Some(s) => Some(s@),
            None => None,
        }
    }

    /// A fresh state that has rendered nothing yet.
    pub fn new() -> (r: State)
        ensures
            r.last_of() == None::<Seq<char>>,
    {
        State { last_rendered: None }
    }

    /// Whether `rendered` differs from the last rendered text (or
    /// nothing was rendered before), recording `rendered` as the new
    /// last text.
    pub fn has_changed(&mut self, rendered: &String) -> (r: bool)
        ensures
            final(self).last_of() == Some(rendered@),
            r == (old(self).last_of() != Some(rendered@)),
    {
        let changed = match &self.last_rendered {
            Some(last) => !(*last == *rendered),
            None => true,
        };
        self.last_rendered = Some(rendered.clone());
        changed
    }
}

/// First match for a variable in one scope's entries.
pub open spec fn lookup_entries(es: Seq<(String, Value)>, name: Seq<char>) -> Option<Value>
    decreases es.len(),
{
    if es.len() == 0 {
        None
    } else if es[0].0@ == name {
        Some(es[0].1)
    } else {
        lookup_entries(es.skip(1), name)
    }
}

/// Lookup walking the scope stack from the innermost (last) scope
/// outward; the first match wins.
pub open spec fn lookup_scopes(ss: Seq<Vec<(String, Value)>>, name: Seq<char>) -> Option<Value>
    decreases ss.len(),
{
    if ss.len() == 0 {
        None
    } else {
        match lookup_entries(ss.last()@, name) {
            Some(v) => Some(v),
            None => lookup_scopes(ss.drop_last(), name),
        }
    }
}

/// First match for a register by construct id.
pub open spec fn reg_get(regs: Seq<(u64, State)>, id: u64) -> Option<State>
    decreases regs.len(),
{
    if regs.len() == 0 {
        None
    } else if regs[0].0 == id {
        Some(regs[0].1)
    } else {
        reg_get(regs.skip(1), id)
    }
}

/// The mathematical model of a context: the scope stack and register
/// store as plain sequences, and the control signal.
pub struct CtxV {
    pub scopes: Seq<Seq<(Seq<char>, Val)>>,
    pub regs: Seq<(u64, Option<Seq<char>>)>,
    pub interrupt: Interrupt,
}

/// The model of one scope's entries.
pub open spec fn entries_view(es: Seq<(String, Value)>) -> Seq<(Seq<char>, Val)> {
    Seq::new(es.len(), |i: int| (es[i].0@, es[i].1@))
}

/// The model of a scope stack.
pub open spec fn stack_view(ss: Seq<Vec<(String, Value)>>) -> Seq<Seq<(Seq<char>, Val)>> {
    Seq::new(ss.len(), |i: int| entries_view(ss[i]@))
}

/// The model of a register store.
pub open spec fn regs_view(rs: Seq<(u64, State)>) -> Seq<(u64, Option<Seq<char>>)> {
    Seq::new(rs.len(), |i: int| (rs[i].0, rs[i].1.last_of()))
}

/// First match for a variable in one modelled scope.
pub open spec fn scope_lookup_at(es: Seq<(Seq<char>, Val)>, name: Seq<char>) -> Option<Val>
    decreases es.len(),
{
    if es.len() == 0 {
        None
    } else if es[0].0 == name {
        Some(es[0].1)
    } else {
        scope_lookup_at(es.skip(1), name)
    }
}

/// Lookup in a modelled scope stack, innermost scope first.
pub open spec fn scope_lookup(ss: Seq<Seq<(Seq<char>, Val)>>, name: Seq<char>) -> Option<Val>
    decreases ss.len(),
{
    if ss.len() == 0 {
        None
    } else {
        match scope_lookup_at(ss.last(), name) {
            Some(v) => Some(v),
            None => scope_lookup(ss.drop_last(), name),
        }
    }
}

/// First match for a register's recorded text in a modelled store:
/// nothing when the construct has no register yet.
pub open spec fn reg_text(
    regs: Seq<(u64, Option<Seq<char>>)>,
    id: u64,
) -> Option<Option<Seq<char>>>
    decreases regs.len(),
{
    if regs.len() == 0 {
        None
    } else if regs[0].0 == id {
        Some(regs[0].1)
    } else {
        reg_text(regs.skip(1), id)
    }
}

/// A lookup of one scope agrees between the store and its model.
pub proof fn lemma_entries_math(es: Seq<(String, Value)>, name: Seq<char>)
    ensures
        match (lookup_entries(es, name), scope_lookup_at(entries_view(es), name)) {
            (Some(v), Some(m)) => v@ == m,
            (None, None) => true,
            _ => false,
        },
    decreases es.len(),
{
    if es.len() > 0 {
        assert(entries_view(es)[0] == (es[0].0@, es[0].1@));
        assert(entries_view(es).skip(1) =~= entries_view(es.skip(1)));
        lemma_entries_math(es.skip(1), name);
    }
}

/// A lookup of the whole stack agrees between the store and its model.
pub proof fn lemma_scopes_math(ss: Seq<Vec<(String, Value)>>, name: Seq<char>)
    ensures
        match (lookup_scopes(ss, name), scope_lookup(stack_view(ss), name)) {
            (Some(v), Some(m)) => v@ == m,
            (None, None) => true,
            _ => false,
        },
    decreases ss.len(),
{
    if ss.len() > 0 {
        assert(stack_view(ss).last() == entries_view(ss.last()@));
        assert(stack_view(ss).drop_last() =~= stack_view(ss.drop_last()));
        lemma_entries_math(ss.last()@, name);
        lemma_scopes_math(ss.drop_last(), name);
    }
}

/// The modelled scope stack is exactly as deep as the scope stack.
pub proof fn lemma_scopes_len(c: &Context)
    ensures
        c@.scopes.len() == c.scope_stack().len(),
{
}

/// A register read agrees between the store and its model.
pub proof fn lemma_regs_math(rs: Seq<(u64, State)>, id: u64)
    ensures
        match (reg_get(rs, id), reg_text(regs_view(rs), id)) {
            (Some(st), Some(m)) => st.last_of() == m,
            (None, None) => true,
            _ => false,
        },
    decreases rs.len(),
{
    if rs.len() > 0 {
        assert(regs_view(rs)[0] == (rs[0].0, rs[0].1.last_of()));
        assert(regs_view(rs).skip(1) =~= regs_view(rs.skip(1)));
        lemma_regs_math(rs.skip(1), id);
    }
}

/// Scans the register store for a construct id, handing back a copy
/// of the first entry's state.
#[verifier::loop_isolation(false)]
fn reg_find(regs: &Vec<(u64, State)>, id: u64) -> (r: Option<State>)
    ensures
        match (r, reg_get(regs@, id)) {
            (Some(x), Some(y)) => x.last_of() == y.last_of(),
            (None, None) => true,
            _ => false,
        },
{
    proof {
        assert(regs@.skip(0) =~= regs@);
    }
    let mut i: usize = 0;
    while i < regs.len()
        invariant
            0 <= i <= regs.len(),
            reg_get(regs@, id) == reg_get(regs@.skip(i as int), id),
        decreases regs.len() - i,
    {
        proof {
            assert(regs@.skip(i as int)[0] == regs@[i as int]);
            assert(regs@.skip(i as int).skip(1) =~= regs@.skip(i as int + 1));
        }
        if regs[i].0 == id {
            return Some(regs[i].1.clone());
        }
        i += 1;
    }
    proof {
        assert(regs@.skip(i as int).len() == 0);
    }
    None
}

/// The runtime context of one render call.
pub struct Context {
    scopes: Vec<Vec<(String, Value)>>,
    registers: Vec<(u64, State)>,
    interrupt: Interrupt,
}

impl View for Context {
    type V = CtxV;

    closed spec fn view(&self) -> CtxV {
        CtxV {
            scopes: stack_view(self.scopes@),
            regs: regs_view(self.registers@),
            interrupt: self.interrupt,
        }
    }
}

impl Context {
    /// The scope stack, outermost first.
    pub closed spec fn scope_stack(&self) -> Seq<Vec<(String, Value)>> {
        self.scopes@
    }

    /// The current control signal.
    pub open spec fn interrupt_of(&self) -> Interrupt {
        self@.interrupt
    }

    /// The register store.
    pub closed spec fn registers_of(&self) -> Seq<(u64, State)> {
        self.registers@
    }

    /// What a name resolves to in this context.
    pub open spec fn spec_lookup(&self, name: Seq<char>) -> Option<Val> {
        scope_lookup(self@.scopes, name)
    }

    /// A fresh context: one empty global scope, no registers, no
    /// pending control signal.
    pub fn new() -> (r: Context)
        ensures
            r@.scopes == seq![Seq::<(Seq<char>, Val)>::empty()],
            r@.regs == Seq::<(u64, Option<Seq<char>>)>::empty(),
            r@.interrupt == Interrupt::Running,
            r.scope_stack().len() == 1,
            r.scope_stack()[0]@.len() == 0,
            r.registers_of().len() == 0,
            r.interrupt_of() == Interrupt::Running,
            forall|name: Seq<char>| r.spec_lookup(name) == None::<Val>,
    {
        let mut scopes: Vec<Vec<(String, Value)>> = Vec::new();
        let global: Vec<(String, Value)> = Vec::new();
        scopes.push(global);
        let r = Context { scopes, registers: Vec::new(), interrupt: Interrupt::Running };
        proof {
            assert(r@.scopes =~~= seq![Seq::<(Seq<char>, Val)>::empty()]);
            assert(r@.regs =~= Seq::<(u64, Option<Seq<char>>)>::empty());
            assert forall|name: Seq<char>| r.spec_lookup(name) == None::<Val> by {
                assert(scope_lookup_at(r@.scopes.last(), name) == None::<Val>);
                assert(r@.scopes.drop_last().len() == 0);
                assert(scope_lookup(r@.scopes.drop_last(), name) == None::<Val>);
            }
        }
        r
    }

    /// Reads the current control signal.
    pub fn interrupt(&self) -> (r: Interrupt)
        ensures
            r == self.interrupt_of(),
    {
        self.interrupt
    }

    /// Raises a control signal.
    pub fn set_interrupt(&mut self, interrupt: Interrupt)
        ensures
            final(self)@.interrupt == interrupt,
            final(self)@.scopes == old(self)@.scopes,
            final(self)@.regs == old(self)@.regs,
            final(self).scope_stack() == old(self).scope_stack(),
            final(self).registers_of() == old(self).registers_of(),
    {
        self.interrupt = interrupt;
    }

    /// Clears the control signal; only a loop construct does this,
    /// after acting on the signal.
    pub fn reset_interrupt(&mut self)
        ensures
            final(self)@.interrupt == Interrupt::Running,
            final(self)@.scopes == old(self)@.scopes,
            final(self)@.regs == old(self)@.regs,
            final(self).scope_stack() == old(self).scope_stack(),
            final(self).registers_of() == old(self).registers_of(),
    {
        self.interrupt = Interrupt::Running;
    }

    /// Pushes a fresh innermost scope (on entry to a block body).
    pub fn push_scope(&mut self)
        ensures
            final(self)@.scopes == old(self)@.scopes.push(Seq::<(Seq<char>, Val)>::empty()),
            final(self)@.regs == old(self)@.regs,
            final(self)@.interrupt == old(self)@.interrupt,
            final(self).scope_stack().len() == old(self).scope_stack().len() + 1,
            final(self).scope_stack().drop_last() == old(self).scope_stack(),
            final(self).scope_stack().last()@.len() == 0,
            final(self).registers_of() == old(self).registers_of(),
    {
        let fresh: Vec<(String, Value)> = Vec::new();
        self.scopes.push(fresh);
        proof {
            assert(self.scope_stack().drop_last() =~= old(self).scope_stack());
            assert(self@.scopes =~~= old(self)@.scopes.push(Seq::<(Seq<char>, Val)>::empty()));
        }
    }

    /// Pops the innermost scope, restoring the bindings that were in
    /// force before it was pushed.
    pub fn pop_scope(&mut self)
        requires
            old(self).scope_stack().len() > 0,
        ensures
            final(self)@.scopes == old(self)@.scopes.drop_last(),
            final(self)@.regs == old(self)@.regs,
            final(self)@.interrupt == old(self)@.interrupt,
            final(self).scope_stack() == old(self).scope_stack().drop_last(),
            final(self).registers_of() == old(self).registers_of(),
    {
        let _ = self.scopes.pop();
        proof {
            assert(self.scope_stack() =~= old(self).scope_stack().drop_last());
            assert(self@.scopes =~= old(self)@.scopes.drop_last());
        }
    }

    /// Binds a name in the innermost scope, shadowing any outer
    /// binding of the same name.
    pub fn set_local(&mut self, name: String, value: Value)
        requires
            old(self).scope_stack().len() > 0,
        ensures
            final(self)@.scopes == old(self)@.scopes.update(
                old(self)@.scopes.len() - 1,
                seq![(name@, value@)] + old(self)@.scopes.last(),
            ),
            final(self)@.regs == old(self)@.regs,
            final(self)@.interrupt == old(self)@.interrupt,
            final(self).scope_stack().len() == old(self).scope_stack().len(),
            final(self).scope_stack().drop_last() == old(self).scope_stack().drop_last(),
            final(self).spec_lookup(name@) == Some(value@),
            forall|other: Seq<char>|
                other != name@ ==> final(self).spec_lookup(other) == old(self).spec_lookup(other),
            final(self).registers_of() == old(self).registers_of(),
    {
        let idx = self.scopes.len() - 1;
        let ghost old_view = self@.scopes;
        let mut inner = self.scopes.remove(idx);
        let ghost old_inner = inner@;
        inner.insert(0, (name, value));
        self.scopes.push(inner);
        proof {
            assert(self.scope_stack().drop_last() =~= old(self).scope_stack().drop_last());
            let new_inner = self.scope_stack().last()@;
            assert(new_inner =~= seq![(name, value)].add(old_inner));
            assert(entries_view(new_inner) =~= seq![(name@, value@)] + entries_view(old_inner));
            assert(entries_view(old_inner) == old_view.last());
            assert(self@.scopes =~= old_view.update(
                old_view.len() - 1,
                seq![(name@, value@)] + old_view.last(),
            ));
            assert(self@.regs =~= old(self)@.regs);
            let new_last = self@.scopes.last();
            assert(new_last == seq![(name@, value@)] + old_view.last());
            assert(new_last[0] == (name@, value@));
            assert(self@.scopes.drop_last() =~= old_view.drop_last());
            assert forall|other: Seq<char>|
                other != name@ implies self.spec_lookup(other) == old(self).spec_lookup(other) by {
                assert(new_last.skip(1) =~= old_view.last());
                assert(scope_lookup_at(new_last, other) == scope_lookup_at(
                    new_last.skip(1),
                    other,
                ));
            }
        }
    }

    /// Binds a name in the outermost (global) scope, as a host sets up
    /// the data a template renders against.
    pub fn set_global(&mut self, name: String, value: Value)
        requires
            old(self).scope_stack().len() == 1,
        ensures
            final(self).scope_stack().len() == 1,
            final(self).spec_lookup(name@) == Some(value@),
            forall|other: Seq<char>|
                other != name@ ==> final(self).spec_lookup(other) == old(self).spec_lookup(other),
            final(self).registers_of() == old(self).registers_of(),
            final(self).interrupt_of() == old(self).interrupt_of(),
    {
        self.set_local(name, value);
    }

    /// Resolves a name against the scope stack, innermost scope first.
    #[verifier::loop_isolation(false)]
    pub fn lookup(&self, name: &String) -> (r: Option<Value>)
        ensures
            match (r, self.spec_lookup(name@)) {
                (Some(x), Some(y)) => x@ == y,
                (None, None) => true,
                _ => false,
            },
    {
        proof {
            lemma_scopes_math(self.scopes@, name@);
        }
        let mut level = self.scopes.len();
        proof {
            assert(self.scope_stack().take(level as int) =~= self.scope_stack());
        }
        while level > 0
            invariant
                0 <= level <= self.scopes.len(),
                lookup_scopes(self.scope_stack(), name@) == lookup_scopes(
                    self.scope_stack().take(level as int),
                    name@,
                ),
            decreases level,
        {
            level = level - 1;
            let scope = &self.scopes[level];
            let ghost entries = scope@;
            proof {
                assert(self.scope_stack().take(level as int + 1).last() == self.scope_stack()[
                    level as int]);
                assert(self.scope_stack().take(level as int + 1).drop_last() =~= self
                    .scope_stack().take(level as int));
                assert(entries.skip(0) =~= entries);
            }
            let mut i: usize = 0;
            while i < scope.len()
                invariant
                    0 <= i <= scope.len(),
                    entries == scope@,
                    lookup_entries(entries, name@) == lookup_entries(
                        entries.skip(i as int),
                        name@,
                    ),
                decreases scope.len() - i,
            {
                proof {
                    assert(entries.skip(i as int)[0] == entries[i as int]);
                    assert(entries.skip(i as int).skip(1) =~= entries.skip(i as int + 1));
                }
                if scope[i].0 == *name {
                    return Some(scope[i].1.clone());
                }
                i += 1;
            }
            proof {
                assert(entries.skip(i as int).len() == 0);
            }
        }
        proof {
            assert(self.scope_stack().take(0).len() == 0);
        }
        None
    }

    /// Runs the changed-text check of the construct with the given id
    /// against its register, creating the register on first access;
    /// the new text is recorded either way.
    #[verifier::loop_isolation(false)]
    pub fn register_has_changed(&mut self, id: u64, rendered: &String) -> (changed: bool)
        ensures
            final(self)@.regs == seq![(id, Some(rendered@))] + old(self)@.regs,
            final(self)@.scopes == old(self)@.scopes,
            final(self)@.interrupt == old(self)@.interrupt,
            changed == (reg_text(old(self)@.regs, id) != Some(Some(rendered@))),
            changed == match reg_get(old(self).registers_of(), id) {
                None => true,
                Some(st) => st.last_of() != Some(rendered@),
            },
            reg_get(final(self).registers_of(), id) matches Some(st) && st.last_of() == Some(
                rendered@,
            ),
            forall|other: u64|
                other != id ==> reg_get(final(self).registers_of(), other) == reg_get(
                    old(self).registers_of(),
                    other,
                ),
            final(self).scope_stack() == old(self).scope_stack(),
    {
        proof {
            lemma_regs_math(self.registers@, id);
        }
        let ghost old_regs = self.registers@;
        let mut state = match reg_find(&self.registers, id) {
            Some(st) => st,
            None => State::new(),
        };
        let changed = state.has_changed(rendered);
        self.registers.insert(0, (id, state));
        proof {
            let new_regs = self.registers_of();
            assert(new_regs.skip(1) =~= old_regs);
            assert forall|other: u64|
                other != id implies reg_get(self.registers_of(), other) == reg_get(
                old(self).registers_of(),
                other,
            ) by {
                assert(reg_get(new_regs, other) == reg_get(new_regs.skip(1), other));
            }
            assert(self@.regs =~= seq![(id, Some(rendered@))] + old(self)@.regs);
            assert(self@.scopes =~= old(self)@.scopes);
        }
        changed
    }
}

} // verus!
