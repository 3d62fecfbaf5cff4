//! Scopes of variables during code generation.

use vstd::prelude::*;
use crate::ir::BlkId;

verus! {

/// What opened a scope.
#[derive(Clone, Copy, Debug, PartialEq, Eq, Structural)]
pub enum ScopeKind {
    /// The first scope, which holds the globals.
    Root,
    Block,
    Loop,
}

/// The type of a variable, with its size.
#[derive(Clone, Copy, Debug, PartialEq, Eq, Structural)]
pub enum VarType {
    SignedInt(u64),
    UnsignedInt(u64),
}

/// A variable: its type and where it stands.
#[derive(Clone, Copy, Debug, PartialEq, Eq, Structural)]
pub struct Variable {
    pub _type: VarType,
    pub pos: u64,
}

/// The variable of `name` in `entries`: the first entry of that name.
pub open spec fn spec_lookup(entries: Seq<(Seq<char>, Variable)>, name: Seq<char>) -> Option<Variable>
    decreases entries.len(),
{
    if entries.len() == 0 {
        None
    } else if entries[0].0 == name {
        Some(entries[0].1)
    } else {
        spec_lookup(entries.drop_first(), name)
    }
}

/// The index of the first entry of `name`, if any.
pub open spec fn spec_index_of(entries: Seq<(Seq<char>, Variable)>, name: Seq<char>) -> Option<int>
    decreases entries.len(),
{
    if entries.len() == 0 {
        None
    } else if entries[0].0 == name {
        Some(0)
    } else {
        match spec_index_of(entries.drop_first(), name) {
            Some(i) => Some(i + 1),
            None => None,
        }
    }
}

/// The entries after declaring `name` as `v`: the first entry of that name is replaced,
/// or, where there is none, the declaration is added at the end.
pub open spec fn spec_declare(entries: Seq<(Seq<char>, Variable)>, name: Seq<char>, v: Variable) -> Seq<(Seq<char>, Variable)> {
    match spec_index_of(entries, name) {
        Some(i) => entries.update(i, (name, v)),
        None => entries.push((name, v)),
    }
}

proof fn lemma_index_of(entries: Seq<(Seq<char>, Variable)>, name: Seq<char>)
    ensures
        match spec_index_of(entries, name) {
            Some(i) => 0 <= i < entries.len() && entries[i].0 == name && spec_lookup(entries, name) == Some(entries[i].1)
                && forall|k: int| 0 <= k < i ==> entries[k].0 != name,
            None => spec_lookup(entries, name) is None && forall|k: int| 0 <= k < entries.len() ==> entries[k].0 != name,
        },
    decreases entries.len(),
{
    if entries.len() > 0 {
        lemma_index_of(entries.drop_first(), name);
        if entries[0].0 != name {
            match spec_index_of(entries.drop_first(), name) {
                Some(i) => {
                    assert forall|k: int| 0 <= k < i + 1 implies entries[k].0 != name by {
                        if k > 0 {
                            assert(entries[k] == entries.drop_first()[k - 1]);
                        }
                    }
                },
                None => {
                    assert forall|k: int| 0 <= k < entries.len() implies entries[k].0 != name by {
                        if k > 0 {
                            assert(entries[k] == entries.drop_first()[k - 1]);
                        }
                    }
                },
            }
        }
    }
}

/// Where no entry before index `i` is named `n`, and entry `i` is not either, the lookup
/// of `n` goes past `i`: changing that entry to another name leaves it alone.
proof fn lemma_lookup_update(entries: Seq<(Seq<char>, Variable)>, i: int, e: (Seq<char>, Variable), n: Seq<char>)
    requires
        0 <= i < entries.len(),
        entries[i].0 != n,
        e.0 != n,
    ensures
        spec_lookup(entries.update(i, e), n) == spec_lookup(entries, n),
    decreases entries.len(),
{
    assert(entries.update(i, e).len() == entries.len());
    if i > 0 {
        assert(entries.update(i, e)[0] == entries[0]);
        assert(entries.update(i, e).drop_first() == entries.drop_first().update(i - 1, e));
        lemma_lookup_update(entries.drop_first(), i - 1, e, n);
    } else {
        assert(entries.update(i, e)[0] == e);
        assert(entries.update(i, e).drop_first() == entries.drop_first());
    }
}

proof fn lemma_lookup_push(entries: Seq<(Seq<char>, Variable)>, e: (Seq<char>, Variable), n: Seq<char>)
    ensures
        spec_lookup(entries.push(e), n) == match spec_lookup(entries, n) {
            Some(v) => Some(v),
            None => if e.0 == n { Some(e.1) } else { None },
        },
    decreases entries.len(),
{
    if entries.len() > 0 {
        assert(entries.push(e)[0] == entries[0]);
        assert(entries.push(e).drop_first() == entries.drop_first().push(e));
        lemma_lookup_push(entries.drop_first(), e, n);
    } else {
        assert(entries.push(e)[0] == e);
        assert(entries.push(e).drop_first() == Seq::<(Seq<char>, Variable)>::empty());
        assert(spec_lookup(Seq::<(Seq<char>, Variable)>::empty(), n) is None);
    }
}

proof fn lemma_lookup_first(entries: Seq<(Seq<char>, Variable)>, i: int, e: (Seq<char>, Variable))
    requires
        0 <= i < entries.len(),
        forall|k: int| 0 <= k < i ==> entries[k].0 != e.0,
    ensures
        spec_lookup(entries.update(i, e), e.0) == Some(e.1),
    decreases entries.len(),
{
    if i > 0 {
        assert(entries.update(i, e).drop_first() == entries.drop_first().update(i - 1, e));
        assert forall|k: int| 0 <= k < i - 1 implies entries.drop_first()[k].0 != e.0 by {
            assert(entries.drop_first()[k] == entries[k + 1]);
        }
        lemma_lookup_first(entries.drop_first(), i - 1, e);
    }
}

/// After declaring `name` as `v`, looking `name` up gives `v`, and looking up any other
/// name gives what it gave before.
pub proof fn lemma_declare_lookup(entries: Seq<(Seq<char>, Variable)>, name: Seq<char>, v: Variable, n: Seq<char>)
    ensures
        spec_lookup(spec_declare(entries, name, v), n) == if n == name { Some(v) } else { spec_lookup(entries, n) },
{
    lemma_index_of(entries, name);
    match spec_index_of(entries, name) {
        Some(i) => {
            if n == name {
                lemma_lookup_first(entries, i, (name, v));
            } else {
                lemma_lookup_update(entries, i, (name, v), n);
            }
        },
        None => {
            lemma_lookup_push(entries, (name, v), n);
        },
    }
}

/// The entries after moving the variable `name` to `pos`.
pub open spec fn spec_move(entries: Seq<(Seq<char>, Variable)>, name: Seq<char>, pos: u64) -> Seq<(Seq<char>, Variable)> {
    match spec_index_of(entries, name) {
        Some(i) => entries.update(i, (name, Variable { _type: entries[i].1._type, pos })),
        None => entries,
    }
}

/// After moving a declared variable, it keeps its type and stands at the new place;
/// every other name is looked up as before.
pub proof fn lemma_move_lookup(entries: Seq<(Seq<char>, Variable)>, name: Seq<char>, pos: u64, n: Seq<char>)
    requires
        spec_lookup(entries, name) is Some,
    ensures
        spec_lookup(spec_move(entries, name, pos), n) == if n == name {
            Some(Variable { _type: spec_lookup(entries, name)->0._type, pos })
        } else {
            spec_lookup(entries, n)
        },
{
    lemma_index_of(entries, name);
    let i = spec_index_of(entries, name)->0;
    let e = (name, Variable { _type: entries[i].1._type, pos });
    if n == name {
        lemma_lookup_first(entries, i, e);
    } else {
        lemma_lookup_update(entries, i, e, n);
    }
}

/// One change to a scope's declarations: `decl_var` of a name as a variable, or
/// `update_var` of a name to a new place.
pub enum ScopeOp {
    Declare(Seq<char>, Variable),
    Move(Seq<char>, u64),
}

/// The declarations after one change.
pub open spec fn spec_step(entries: Seq<(Seq<char>, Variable)>, op: ScopeOp) -> Seq<(Seq<char>, Variable)> {
    match op {
        ScopeOp::Declare(n, v) => spec_declare(entries, n, v),
        ScopeOp::Move(n, p) => spec_move(entries, n, p),
    }
}

/// The declarations of a scope that started empty, after the changes `ops` in order.
pub open spec fn spec_history(ops: Seq<ScopeOp>) -> Seq<(Seq<char>, Variable)>
    decreases ops.len(),
{
    if ops.len() == 0 {
        Seq::empty()
    } else {
        spec_step(spec_history(ops.drop_last()), ops.last())
    }
}

/// The place that the latest change of `name` in `ops` gave it, or `None` where `ops`
/// never declares it.
pub open spec fn spec_latest_offset(ops: Seq<ScopeOp>, name: Seq<char>) -> Option<u64>
    decreases ops.len(),
{
    if ops.len() == 0 {
        None
    } else {
        match ops.last() {
            ScopeOp::Declare(n, v) => if n == name { Some(v.pos) } else { spec_latest_offset(ops.drop_last(), name) },
            ScopeOp::Move(n, p) => if n == name { Some(p) } else { spec_latest_offset(ops.drop_last(), name) },
        }
    }
}

/// Every move in `ops` is of a name declared before it (`update_var` asks for that).
pub open spec fn moves_declared(ops: Seq<ScopeOp>) -> bool
    decreases ops.len(),
{
    if ops.len() == 0 {
        true
    } else {
        &&& moves_declared(ops.drop_last())
        &&& match ops.last() {
            ScopeOp::Move(n, _) => spec_latest_offset(ops.drop_last(), n) is Some,
            ScopeOp::Declare(_, _) => true,
        }
    }
}

/// After any history of declarations and moves in a scope that started empty, looking a
/// name up finds nothing exactly where the name was never declared, and otherwise the
/// place that the latest declaration or move of that name gave it.
pub proof fn lemma_history_lookup(ops: Seq<ScopeOp>, name: Seq<char>)
    requires
        moves_declared(ops),
    ensures
        (match spec_lookup(spec_history(ops), name) {
            Some(v) => Some(v.pos),
            None => None::<u64>,
        }) == spec_latest_offset(ops, name),
    decreases ops.len(),
{
    if ops.len() > 0 {
        let prev = ops.drop_last();
        let e = spec_history(prev);
        lemma_history_lookup(prev, name);
        match ops.last() {
            ScopeOp::Declare(n, v) => {
                lemma_declare_lookup(e, n, v, name);
            },
            ScopeOp::Move(n, p) => {
                lemma_history_lookup(prev, n);
                lemma_move_lookup(e, n, p, name);
            },
        }
    }
}

/// The declarations `e`, placed in order at `start`, `start + 1`, and so on.
pub open spec fn spec_numbered(e: Seq<(Seq<char>, Variable)>, start: nat) -> Seq<(Seq<char>, Variable)> {
    Seq::new(e.len(), |k: int| (e[k].0, Variable { _type: e[k].1._type, pos: (start + k) as u64 }))
}

/// The variables of a scope, what opened it, its block and the block where it exits.
pub struct Scope {
    variables: Vec<(String, Variable)>,
    pub kind: ScopeKind,
    pub block: BlkId,
    pub exit: BlkId,
}

pub open spec fn entries_view(v: Seq<(String, Variable)>) -> Seq<(Seq<char>, Variable)> {
    v.map_values(|e: (String, Variable)| (e.0@, e.1))
}

/// What a scope is: its declarations in order, what opened it, its block and the
/// block where it exits.
pub struct ScopeV {
    pub entries: Seq<(Seq<char>, Variable)>,
    pub kind: ScopeKind,
    pub block: BlkId,
    pub exit: BlkId,
}

impl View for Scope {
    type V = ScopeV;

    closed spec fn view(&self) -> ScopeV {
        ScopeV { entries: entries_view(self.variables@), kind: self.kind, block: self.block, exit: self.exit }
    }
}

impl Scope {
    /// The declarations of the scope, in order.
    pub open spec fn entries(&self) -> Seq<(Seq<char>, Variable)> {
        self@.entries
    }

    /// An empty scope.
    pub fn new(kind: ScopeKind, block: BlkId, exit: BlkId) -> (r: Self)
        ensures
            r.entries() == Seq::<(Seq<char>, Variable)>::empty(),
            r@.kind == kind,
            r@.block == block,
            r@.exit == exit,
    {
        let r = Scope { variables: Vec::new(), kind, block, exit };
        assert(r.entries() =~= Seq::<(Seq<char>, Variable)>::empty());
        r
    }

    /// The index of the first declaration of `name`.
    fn find(&self, name: &String) -> (r: Option<usize>)
        ensures
            match r {
                Some(k) => spec_index_of(self.entries(), name@) == Some(k as int),
                None => spec_index_of(self.entries(), name@) is None,
            },
    {
        proof {
            lemma_index_of(self.entries(), name@);
        }
        let mut i: usize = 0;
        while i < self.variables.len()
            invariant
                0 <= i <= self.variables.len(),
                forall|k: int| 0 <= k < i ==> self.entries()[k].0 != name@,
            decreases self.variables.len() - i,
        {
            let same = self.variables[i].0 == *name;
            proof {
                assert(self.entries()[i as int] == (self.variables@[i as int].0@, self.variables@[i as int].1));
            }
            if same {
                proof {
                    lemma_index_of(self.entries(), name@);
                    assert(self.entries()[i as int].0 == name@);
                    match spec_index_of(self.entries(), name@) {
                        Some(j) => {
                            if j < i {
                                assert(self.entries()[j].0 != name@);
                            } else if j > i {
                                assert(self.entries()[i as int].0 != name@);
                            }
                        },
                        None => {
                            assert(self.entries()[i as int].0 != name@);
                        },
                    }
                }
                return Some(i);
            }
            i += 1;
        }
        proof {
            match spec_index_of(self.entries(), name@) {
                Some(j) => {
                    assert(self.entries()[j].0 != name@);
                },
                None => {},
            }
        }
        None
    }

    /// Declares `name` at `offset` with type `_type`, replacing an earlier declaration
    /// of the same name.
    pub fn decl_var(&mut self, name: String, offset: u64, _type: VarType)
        ensures
            final(self).entries() == spec_declare(old(self).entries(), name@, Variable { pos: offset, _type }),
            final(self)@.kind == old(self)@.kind,
            final(self)@.block == old(self)@.block,
            final(self)@.exit == old(self)@.exit,
    {
        let v = Variable { pos: offset, _type };
        proof {
            lemma_index_of(self.entries(), name@);
        }
        match self.find(&name) {
            Some(i) => {
                let ghost n = name@;
                self.variables.set(i, (name, v));
                proof {
                    assert(self.entries() =~= old(self).entries().update(i as int, (n, v)));
                }
            },
            None => {
                let ghost n = name@;
                self.variables.push((name, v));
                proof {
                    assert(self.entries() =~= old(self).entries().push((n, v)));
                }
            },
        }
    }

    /// Where the variable `name` stands, if it is declared.
    pub fn get_var_offset(&self, name: &String) -> (r: Option<u64>)
        ensures
            r == match spec_lookup(self.entries(), name@) {
                Some(v) => Some(v.pos),
                None => None::<u64>,
            },
    {
        proof {
            lemma_index_of(self.entries(), name@);
        }
        match self.find(name) {
            Some(i) => {
                assert(self.entries()[i as int] == (self.variables@[i as int].0@, self.variables@[i as int].1));
                Some(self.variables[i].1.pos)
            },
            None => None,
        }
    }

    /// The type of the variable `name`, if it is declared.
    pub fn get_var_type(&self, name: &String) -> (r: Option<VarType>)
        ensures
            r == match spec_lookup(self.entries(), name@) {
                Some(v) => Some(v._type),
                None => None::<VarType>,
            },
    {
        proof {
            lemma_index_of(self.entries(), name@);
        }
        match self.find(name) {
            Some(i) => {
                assert(self.entries()[i as int] == (self.variables@[i as int].0@, self.variables@[i as int].1));
                Some(self.variables[i].1._type)
            },
            None => None,
        }
    }

    /// Moves the declared variable `name` to `offset`.
    pub fn update_var(&mut self, name: &String, offset: u64)
        requires
            spec_lookup(old(self).entries(), name@) is Some,
        ensures
            final(self).entries() == spec_move(old(self).entries(), name@, offset),
            final(self)@.kind == old(self)@.kind,
            final(self)@.block == old(self)@.block,
            final(self)@.exit == old(self)@.exit,
    {
        proof {
            lemma_index_of(self.entries(), name@);
        }
        match self.find(name) {
            Some(i) => {
                assert(self.entries()[i as int] == (self.variables@[i as int].0@, self.variables@[i as int].1));
                let t = self.variables[i].1._type;
                let n = name.clone();
                self.variables.set(i, (n, Variable { _type: t, pos: offset }));
                proof {
                    assert(self.entries() =~= spec_move(old(self).entries(), name@, offset));
                }
            },
            None => {},
        }
    }

    /// Places the declarations, in order, at `start`, `start + 1`, and so on; returns
    /// the place after the last.
    pub fn number_from(&mut self, start: u64) -> (r: u64)
        requires
            start + old(self).entries().len() <= u64::MAX,
        ensures
            final(self).entries() == spec_numbered(old(self).entries(), start as nat),
            r == start + old(self).entries().len(),
            final(self)@.kind == old(self)@.kind,
            final(self)@.block == old(self)@.block,
            final(self)@.exit == old(self)@.exit,
    {
        let ghost e0 = self.entries();
        let mut k: usize = 0;
        let mut pos = start;
        while k < self.variables.len()
            invariant
                0 <= k <= self.variables.len(),
                self.variables.len() == e0.len(),
                start + e0.len() <= u64::MAX,
                pos == start + k,
                self.kind == old(self).kind,
                self.block == old(self).block,
                self.exit == old(self).exit,
                forall|m: int| 0 <= m < k ==> #[trigger] self.entries()[m] == spec_numbered(e0, start as nat)[m],
                forall|m: int| k <= m < e0.len() ==> #[trigger] self.entries()[m] == e0[m],
            decreases self.variables.len() - k,
        {
            let ghost before = self.variables@;
            proof {
                assert(self.entries()[k as int] == e0[k as int]);
            }
            let (n, v) = self.variables.remove(k);
            let nv = Variable { _type: v._type, pos };
            self.variables.insert(k, (n, nv));
            proof {
                assert(self.variables@ =~= before.update(k as int, (n, nv)));
                assert(self.entries()[k as int] == spec_numbered(e0, start as nat)[k as int]);
                assert forall|m: int| 0 <= m < e0.len() && m != k implies #[trigger] self.entries()[m] == entries_view(before)[m] by {
                    assert(self.variables@[m] == before[m]);
                }
            }
            pos += 1;
            k += 1;
        }
        proof {
            assert(self.entries() =~= spec_numbered(e0, start as nat));
        }
        pos
    }

    /// The type of each declaration, in order.
    pub fn var_types(&self) -> (r: Vec<VarType>)
        ensures
            r@ == self.entries().map_values(|e: (Seq<char>, Variable)| e.1._type),
    {
        let mut r: Vec<VarType> = Vec::new();
        let mut i: usize = 0;
        while i < self.variables.len()
            invariant
                0 <= i <= self.variables.len(),
                r@ == self.entries().take(i as int).map_values(|e: (Seq<char>, Variable)| e.1._type),
            decreases self.variables.len() - i,
        {
            r.push(self.variables[i].1._type);
            proof {
                assert(self.entries().take(i + 1).map_values(|e: (Seq<char>, Variable)| e.1._type)
                    =~= self.entries().take(i as int).map_values(|e: (Seq<char>, Variable)| e.1._type).push(self.variables@[i as int].1._type));
            }
            i += 1;
        }
        proof {
            assert(self.entries().take(self.variables.len() as int) == self.entries());
        }
        r
    }

    /// The declarations, in order.
    pub fn get_vars(&self) -> (r: &Vec<(String, Variable)>)
        ensures
            entries_view(r@) == self.entries(),
    {
        &self.variables
    }

    /// The declarations, to be changed in place.
    pub fn get_vars_mut(&mut self) -> (r: &mut Vec<(String, Variable)>)
        ensures
            entries_view(r@) == old(self).entries(),
            entries_view(final(r)@) == final(self).entries(),
            final(self)@.kind == old(self)@.kind,
            final(self)@.block == old(self)@.block,
            final(self)@.exit == old(self)@.exit,
    {
        &mut self.variables
    }
}

} // verus!
