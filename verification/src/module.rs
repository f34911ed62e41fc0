//! The symbol tables of one source file: its variables, functions, structs,
//! fields and scopes, and the lookups over them.

use vstd::prelude::*;

use crate::error::AnalyzeError;
use crate::green::{finished_tree, green_clone};
use crate::types::{const_type, Ty, TyView};
use crate::value::Value;

verus! {

/// A span of source text, from `start` up to (not including) `end`.
#[derive(Debug, Clone, Copy, PartialEq, Eq, Hash, Structural)]
pub struct TextRange {
    pub start: u32,
    pub end: u32,
}

/// A variable: its slot in the module's variable table.
#[derive(Debug, Clone, Copy, PartialEq, Eq, Hash, Structural)]
pub struct VariableID(pub u32);

/// A scope: its slot in the module's scope table.
#[derive(Debug, Clone, Copy, PartialEq, Eq, Hash, Structural)]
pub struct ScopeID(pub u32);

/// A reference: its slot in the module's reference table.
#[derive(Debug, Clone, Copy, PartialEq, Eq, Hash, Structural)]
pub struct ReferenceID(pub u32);

/// The identity of a struct: the file that defines it and its slot there.
#[derive(Debug, Clone, Copy, PartialEq, Eq, Hash, Structural)]
pub struct StructID {
    pub module: u32,
    pub index: u32,
}

/// The identity of a function: the file that defines it and its slot there.
#[derive(Debug, Clone, Copy, PartialEq, Eq, Hash, Structural)]
pub struct FunctionID {
    pub module: u32,
    pub index: u32,
}

/// The identity of a struct field: the file that defines it and its slot there.
#[derive(Debug, Clone, Copy, PartialEq, Eq, Hash, Structural)]
pub struct FieldID {
    pub module: u32,
    pub index: u32,
}

impl StructID {
    pub fn new(module: u32, index: u32) -> (r: StructID)
        ensures
            r == (StructID { module, index }),
    {
        StructID { module, index }
    }
}

impl FunctionID {
    pub fn new(module: u32, index: u32) -> (r: FunctionID)
        ensures
            r == (FunctionID { module, index }),
    {
        FunctionID { module, index }
    }
}

impl FieldID {
    pub fn new(module: u32, index: u32) -> (r: FieldID)
        ensures
            r == (FieldID { module, index }),
    {
        FieldID { module, index }
    }
}

/// A declared variable.
#[derive(Debug)]
pub struct Variable {
    pub name: String,
    pub ty: Ty,
    pub range: TextRange,
}

impl Variable {
    /// Whether the variable is read-only.
    pub fn is_const(&self) -> (r: bool)
        ensures
            r == const_type(self.ty@),
    {
        self.ty.is_const()
    }
}

/// What a reference in the source refers to.
#[derive(Debug, Clone, Copy, PartialEq, Eq, Structural)]
pub enum ReferenceTag {
    VarRead(VariableID),
    FieldRead(FieldID),
    FuncCall(FunctionID),
}

/// A use of a variable or a function in the source.
#[derive(Debug, Clone, Copy)]
pub struct Reference {
    pub tag: ReferenceTag,
    pub range: TextRange,
}

/// A declared function.
#[derive(Debug)]
pub struct Function {
    pub name: String,
    pub params: Vec<VariableID>,
    /// The name and type of each parameter.
    pub meta_types: Vec<(String, Ty)>,
    pub ret_type: Ty,
    pub have_impl: bool,
    /// Whether the function takes further arguments after its parameters.
    pub is_variadic: bool,
    pub range: TextRange,
}

/// A declared struct.
#[derive(Debug)]
pub struct Struct {
    pub name: String,
    pub fields: Vec<FieldID>,
    pub range: TextRange,
}

/// A declared struct field.
#[derive(Debug)]
pub struct Field {
    pub name: String,
    pub ty: Ty,
    pub range: TextRange,
}

/// A struct as a mathematical value.
pub struct StructView {
    pub name: Seq<char>,
    pub fields: Seq<FieldID>,
    pub range: TextRange,
}

impl View for Struct {
    type V = StructView;

    open spec fn view(&self) -> StructView {
        StructView { name: self.name@, fields: self.fields@, range: self.range }
    }
}

impl Struct {
    /// A copy of the struct.
    pub fn duplicate(&self) -> (r: Struct)
        ensures
            r@ == self@,
    {
        Struct { name: self.name.clone(), fields: self.fields.clone(), range: self.range }
    }
}

// ---------------------------------------------------------------------------
// Tables keyed by name or by source range
// ---------------------------------------------------------------------------

/// The value bound to `name` in a list of named entries: the first binding.
pub open spec fn named<V>(entries: Seq<(String, V)>, name: Seq<char>) -> Option<V>
    decreases entries.len(),
{
    if entries.len() == 0 {
        None
    } else if entries[0].0@ == name {
        Some(entries[0].1)
    } else {
        named(entries.drop_first(), name)
    }
}

/// The value bound to `range` in a list of entries keyed by source range: the first binding.
pub open spec fn at_range<V>(entries: Seq<(TextRange, V)>, range: TextRange) -> Option<V>
    decreases entries.len(),
{
    if entries.len() == 0 {
        None
    } else if entries[0].0 == range {
        Some(entries[0].1)
    } else {
        at_range(entries.drop_first(), range)
    }
}

pub(crate) proof fn lemma_named_push<V>(entries: Seq<(String, V)>, name: String, v: V, key: Seq<char>)
    ensures
        named(entries.push((name, v)), key) == (if named(entries, key) is Some {
            named(entries, key)
        } else if name@ == key {
            Some(v)
        } else {
            None
        }),
    decreases entries.len(),
{
    if entries.len() > 0 {
        assert(entries.push((name, v)).drop_first() =~= entries.drop_first().push((name, v)));
        assert(entries.push((name, v))[0] == entries[0]);
        lemma_named_push(entries.drop_first(), name, v, key);
    } else {
        assert(entries.push((name, v)).drop_first() =~= entries);
    }
}

proof fn lemma_at_range_push<V>(entries: Seq<(TextRange, V)>, range: TextRange, v: V, key: TextRange)
    ensures
        at_range(entries.push((range, v)), key) == (if at_range(entries, key) is Some {
            at_range(entries, key)
        } else if range == key {
            Some(v)
        } else {
            None
        }),
    decreases entries.len(),
{
    if entries.len() > 0 {
        assert(entries.push((range, v)).drop_first() =~= entries.drop_first().push((range, v)));
        assert(entries.push((range, v))[0] == entries[0]);
        lemma_at_range_push(entries.drop_first(), range, v, key);
    } else {
        assert(entries.push((range, v)).drop_first() =~= entries);
    }
}

proof fn lemma_named_update<V>(entries: Seq<(String, V)>, i: int, k: String, v: V, key: Seq<char>)
    requires
        0 <= i < entries.len(),
        k@ == entries[i].0@,
        forall|j: int| 0 <= j < i ==> entries[j].0@ != entries[i].0@,
    ensures
        named(entries.update(i, (k, v)), key) == (if key == k@ {
            Some(v)
        } else {
            named(entries, key)
        }),
    decreases entries.len(),
{
    let u = entries.update(i, (k, v));
    if i > 0 {
        assert(u.drop_first() =~= entries.drop_first().update(i - 1, (k, v)));
        assert(u[0] == entries[0]);
        lemma_named_update(entries.drop_first(), i - 1, k, v, key);
    } else {
        assert(u.drop_first() =~= entries.drop_first());
    }
}

proof fn lemma_at_range_update<V>(entries: Seq<(TextRange, V)>, i: int, v: V, key: TextRange)
    requires
        0 <= i < entries.len(),
        forall|j: int| 0 <= j < i ==> entries[j].0 != entries[i].0,
    ensures
        at_range(entries.update(i, (entries[i].0, v)), key) == (if key == entries[i].0 {
            Some(v)
        } else {
            at_range(entries, key)
        }),
    decreases entries.len(),
{
    let u = entries.update(i, (entries[i].0, v));
    if i > 0 {
        assert(u.drop_first() =~= entries.drop_first().update(i - 1, (entries[i].0, v)));
        assert(u[0] == entries[0]);
        lemma_at_range_update(entries.drop_first(), i - 1, v, key);
    } else {
        assert(u.drop_first() =~= entries.drop_first());
    }
}

/// The position of the first entry named `key`.
pub(crate) fn position_named<V>(entries: &Vec<(String, V)>, key: &String) -> (r: Option<usize>)
    ensures
        r matches Some(i) ==> i < entries.len() && entries@[i as int].0@ == key@ && named(entries@, key@)
            == Some(entries@[i as int].1) && forall|j: int| 0 <= j < i ==> entries@[j].0@ != key@,
        r is None ==> named(entries@, key@) is None,
{
    let mut i: usize = 0;
    assert(entries@.skip(0) =~= entries@);
    while i < entries.len()
        invariant
            i <= entries.len(),
            named(entries@, key@) == named(entries@.skip(i as int), key@),
            forall|j: int| 0 <= j < i ==> entries@[j].0@ != key@,
        decreases entries.len() - i,
    {
        if entries[i].0 == *key {
            return Some(i);
        }
        assert(entries@.skip(i as int).drop_first() =~= entries@.skip(i + 1));
        i += 1;
    }
    None
}

/// The position of the first entry for `key`.
pub(crate) fn position_at_range<V>(entries: &Vec<(TextRange, V)>, key: TextRange) -> (r: Option<usize>)
    ensures
        r matches Some(i) ==> i < entries.len() && entries@[i as int].0 == key && at_range(entries@, key)
            == Some(entries@[i as int].1) && forall|j: int| 0 <= j < i ==> entries@[j].0 != key,
        r is None ==> at_range(entries@, key) is None,
{
    let mut i: usize = 0;
    assert(entries@.skip(0) =~= entries@);
    while i < entries.len()
        invariant
            i <= entries.len(),
            at_range(entries@, key) == at_range(entries@.skip(i as int), key),
            forall|j: int| 0 <= j < i ==> entries@[j].0 != key,
        decreases entries.len() - i,
    {
        if entries[i].0 == key {
            return Some(i);
        }
        assert(entries@.skip(i as int).drop_first() =~= entries@.skip(i + 1));
        i += 1;
    }
    None
}

/// Binds `name` to `v`: replaces the first binding of the name, or adds one.
pub(crate) fn bind_name<V>(entries: &mut Vec<(String, V)>, name: String, v: V)
    ensures
        forall|key: Seq<char>|
            #[trigger] named(final(entries)@, key) == if key == name@ {
                Some(v)
            } else {
                named(old(entries)@, key)
            },
{
    match position_named(entries, &name) {
        Some(i) => {
            let ghost before = entries@;
            let ghost k = name;
            entries.set(i, (name, v));
            proof {
                assert forall|key: Seq<char>| #[trigger] named(entries@, key) == if key == k@ {
                    Some(v)
                } else {
                    named(before, key)
                } by {
                    lemma_named_update(before, i as int, k, v, key);
                }
            }
        },
        None => {
            proof {
                assert forall|key: Seq<char>| #[trigger] named(entries@.push((name, v)), key) == if key == name@ {
                    Some(v)
                } else {
                    named(entries@, key)
                } by {
                    lemma_named_push(entries@, name, v, key);
                }
            }
            entries.push((name, v));
        },
    }
}

/// Binds `range` to `v`: replaces the first binding of the range, or adds one.
pub(crate) fn bind_range<V>(entries: &mut Vec<(TextRange, V)>, range: TextRange, v: V)
    ensures
        forall|key: TextRange|
            #[trigger] at_range(final(entries)@, key) == if key == range {
                Some(v)
            } else {
                at_range(old(entries)@, key)
            },
{
    match position_at_range(entries, range) {
        Some(i) => {
            proof {
                assert forall|key: TextRange| #[trigger] at_range(entries@.update(i as int, (entries@[i as int].0, v)), key) == if key == range {
                    Some(v)
                } else {
                    at_range(entries@, key)
                } by {
                    lemma_at_range_update(entries@, i as int, v, key);
                }
            }
            entries.set(i, (range, v));
        },
        None => {
            proof {
                assert forall|key: TextRange| #[trigger] at_range(entries@.push((range, v)), key) == if key == range {
                    Some(v)
                } else {
                    at_range(entries@, key)
                } by {
                    lemma_at_range_push(entries@, range, v, key);
                }
            }
            entries.push((range, v));
        },
    }
}

proof fn lemma_at_range_remove<V>(entries: Seq<(TextRange, V)>, i: int, key: TextRange)
    requires
        0 <= i < entries.len(),
        key != entries[i].0,
    ensures
        at_range(entries.remove(i), key) == at_range(entries, key),
    decreases entries.len(),
{
    let u = entries.remove(i);
    if i > 0 {
        assert(u.drop_first() =~= entries.drop_first().remove(i - 1));
        assert(u[0] == entries[0]);
        lemma_at_range_remove(entries.drop_first(), i - 1, key);
    } else {
        assert(u =~= entries.drop_first());
    }
}

/// Removes every binding of `range`.
pub(crate) fn unbind_range<V>(entries: &mut Vec<(TextRange, V)>, range: TextRange)
    ensures
        forall|key: TextRange|
            #[trigger] at_range(final(entries)@, key) == if key == range {
                None
            } else {
                at_range(old(entries)@, key)
            },
{
    let ghost start = entries@;
    loop
        invariant
            start == old(entries)@,
            forall|key: TextRange| key != range ==> #[trigger] at_range(entries@, key) == at_range(start, key),
        decreases entries.len(),
    {
        match position_at_range(entries, range) {
            Some(i) => {
                proof {
                    assert forall|key: TextRange| key != range implies #[trigger] at_range(entries@.remove(i as int), key)
                        == at_range(start, key) by {
                        lemma_at_range_remove(entries@, i as int, key);
                    }
                }
                entries.remove(i);
            },
            None => {
                return;
            },
        }
    }
}

/// Whether two states of a module differ at most in their type and value
/// tables, their errors and their overflowing literals.
pub open spec fn same_symbols(a: &Module, b: &Module) -> bool {
    &&& a.file_id == b.file_id
    &&& a.variables == b.variables
    &&& a.reference == b.reference
    &&& a.functions == b.functions
    &&& a.structs == b.structs
    &&& a.fields == b.fields
    &&& a.scopes == b.scopes
    &&& a.global_scope == b.global_scope
    &&& a.green_tree == b.green_tree
    &&& a.variable_map == b.variable_map
    &&& a.reference_map == b.reference_map
    &&& a.struct_map == b.struct_map
    &&& a.function_map == b.function_map
    &&& a.current_scope == b.current_scope
    &&& a.index == b.index
    &&& a.metadata == b.metadata
}

// ---------------------------------------------------------------------------
// Scopes
// ---------------------------------------------------------------------------

/// A block of the source and the variables declared directly in it.
#[derive(Debug)]
pub struct Scope {
    pub parent: Option<ScopeID>,
    /// Variable names declared here, each at most once.
    pub variables: Vec<(String, VariableID)>,
    pub range: TextRange,
}

/// Every scope's parent comes before it in the scope table.
pub open spec fn scopes_wf(scopes: Seq<Scope>) -> bool {
    forall|i: int| 0 <= i < scopes.len() ==> (#[trigger] scopes[i].parent matches Some(p) ==> (p.0 as int) < i)
}

/// The variable that `name` resolves to from the scope at position `i`:
/// declared there, or else resolved from its parent.
pub open spec fn lookup_in(scopes: Seq<Scope>, i: int, name: Seq<char>) -> Option<VariableID>
    decreases i,
{
    if !(0 <= i < scopes.len()) {
        None
    } else {
        match named(scopes[i].variables@, name) {
            Some(v) => Some(v),
            None => match scopes[i].parent {
                Some(p) => if (p.0 as int) < i {
                    lookup_in(scopes, p.0 as int, name)
                } else {
                    None
                },
                None => None,
            },
        }
    }
}

/// The variable that `name` resolves to from the scope `s`.
pub open spec fn lookup_from(scopes: Seq<Scope>, s: Scope, name: Seq<char>) -> Option<VariableID> {
    match named(s.variables@, name) {
        Some(v) => Some(v),
        None => match s.parent {
            Some(p) => lookup_in(scopes, p.0 as int, name),
            None => None,
        },
    }
}

/// The chain of parents from `cur` reaches its end within `fuel` steps,
/// through scopes that all exist.
pub open spec fn chain_ends(scopes: Seq<Scope>, cur: Option<ScopeID>, fuel: nat) -> bool
    decreases fuel,
{
    match cur {
        None => true,
        Some(p) => fuel > 0 && (p.0 as int) < scopes.len() && chain_ends(scopes, scopes[p.0 as int].parent, (fuel - 1) as nat),
    }
}

/// The variable that `name` resolves to along the chain of parents from
/// `cur`: the first scope of the chain that declares it, within `fuel` steps.
pub open spec fn lookup_chain(scopes: Seq<Scope>, cur: Option<ScopeID>, name: Seq<char>, fuel: nat) -> Option<VariableID>
    decreases fuel,
{
    match cur {
        None => None,
        Some(p) => if fuel == 0 || !((p.0 as int) < scopes.len()) {
            None
        } else {
            match named(scopes[p.0 as int].variables@, name) {
                Some(v) => Some(v),
                None => lookup_chain(scopes, scopes[p.0 as int].parent, name, (fuel - 1) as nat),
            }
        },
    }
}

/// When each parent comes before its scope, the chain from scope `p` ends
/// within any fuel above `p`, and resolves names as `lookup_in` does.
pub proof fn lemma_chain_lookup_wf(scopes: Seq<Scope>, p: int, name: Seq<char>, fuel: nat)
    requires
        scopes_wf(scopes),
        0 <= p < scopes.len(),
        p < fuel,
        p <= u32::MAX,
    ensures
        chain_ends(scopes, Some(ScopeID(p as u32)), fuel),
        lookup_chain(scopes, Some(ScopeID(p as u32)), name, fuel) == lookup_in(scopes, p, name),
    decreases p,
{
    let sp = ScopeID(p as u32);
    assert((sp.0 as int) == p);
    assert(scopes[sp.0 as int] == scopes[p]);
    match scopes[p].parent {
        Some(q) => {
            assert((q.0 as int) < p);
            lemma_chain_lookup_wf(scopes, q.0 as int, name, (fuel - 1) as nat);
            assert(ScopeID(q.0 as int as u32) == q);
            assert(chain_ends(scopes, Some(q), (fuel - 1) as nat));
            assert(lookup_chain(scopes, Some(q), name, (fuel - 1) as nat) == lookup_in(scopes, q.0 as int, name));
        },
        None => {},
    }
    assert(fuel > 0);
    assert((sp.0 as int) < scopes.len());
    assert(chain_ends(scopes, scopes[sp.0 as int].parent, (fuel - 1) as nat));
    assert(chain_ends(scopes, Some(sp), fuel));
}

impl Scope {
    /// Declares a variable in this scope: adds it to the variable table and binds
    /// its name here and its range in the range table.
    pub fn new_variable(
        &mut self,
        variables: &mut Vec<Variable>,
        variable_map: &mut Vec<(TextRange, VariableID)>,
        name: String,
        ty: Ty,
        range: TextRange,
    ) -> (r: VariableID)
        requires
            old(variables).len() < u32::MAX,
        ensures
            r.0 == old(variables).len(),
            final(variables)@.len() == old(variables)@.len() + 1,
            forall|i: int| 0 <= i < old(variables)@.len() ==> #[trigger] final(variables)@[i] == old(variables)@[i],
            final(variables)@[r.0 as int].name@ == name@,
            final(variables)@[r.0 as int].ty@ == ty@,
            final(variables)@[r.0 as int].range == range,
            forall|key: Seq<char>|
                #[trigger] named(final(self).variables@, key) == if key == name@ {
                    Some(r)
                } else {
                    named(old(self).variables@, key)
                },
            forall|key: TextRange|
                #[trigger] at_range(final(variable_map)@, key) == if key == range {
                    Some(r)
                } else {
                    at_range(old(variable_map)@, key)
                },
            final(self).parent == old(self).parent,
            final(self).range == old(self).range,
    {
        let var_id = VariableID(variables.len() as u32);
        variables.push(Variable { name: name.clone(), ty, range });
        bind_name(&mut self.variables, name, var_id);
        bind_range(variable_map, range, var_id);
        var_id
    }

    /// The variable that `var_name` resolves to from this scope, looking
    /// outward through the parents in `m`: the innermost scope of the chain
    /// that declares the name decides. The chain of parents must end.
    pub fn look_up_variable(&self, m: &Module, var_name: &str) -> (r: Option<VariableID>)
        requires
            chain_ends(m.scopes@, self.parent, m.scopes@.len()),
        ensures
            r == (match named(self.variables@, var_name@) {
                Some(v) => Some(v),
                None => lookup_chain(m.scopes@, self.parent, var_name@, m.scopes@.len()),
            }),
            scopes_wf(m.scopes@) ==> r == lookup_from(m.scopes@, *self, var_name@),
    {
        proof {
            if scopes_wf(m.scopes@) {
                if let Some(p) = self.parent {
                    lemma_chain_lookup_wf(m.scopes@, p.0 as int, var_name@, m.scopes@.len());
                }
            }
        }
        let key = var_name.to_string();
        assert(key@ == var_name@);
        if let Some(i) = position_named(&self.variables, &key) {
            return Some(self.variables[i].1);
        }
        let mut cur = self.parent;
        let ghost mut fuel: nat = m.scopes@.len();
        while cur.is_some()
            invariant
                key@ == var_name@,
                named(self.variables@, key@) is None,
                scopes_wf(m.scopes@) ==> lookup_chain(m.scopes@, self.parent, key@, m.scopes@.len()) == match self.parent {
                    Some(p) => lookup_in(m.scopes@, p.0 as int, key@),
                    None => None::<VariableID>,
                },
                chain_ends(m.scopes@, cur, fuel),
                lookup_chain(m.scopes@, self.parent, key@, m.scopes@.len()) == lookup_chain(m.scopes@, cur, key@, fuel),
            decreases fuel,
        {
            let pid = cur.unwrap();
            let u = &m.scopes[pid.0 as usize];
            assert(m.scopes@[pid.0 as int] == *u);
            assert(fuel > 0 && (pid.0 as int) < m.scopes@.len());
            if let Some(i) = position_named(&u.variables, &key) {
                assert(lookup_chain(m.scopes@, cur, key@, fuel) == named(u.variables@, key@));
                return Some(u.variables[i].1);
            }
            proof {
                assert(m.scopes@[pid.0 as int].parent == u.parent);
                assert(lookup_chain(m.scopes@, cur, key@, fuel) == lookup_chain(m.scopes@, u.parent, key@, (fuel - 1) as nat));
                fuel = (fuel - 1) as nat;
            }
            cur = u.parent;
        }
        None
    }

    /// Whether `var_name` is declared directly in this scope.
    pub fn have_variable_def(&self, var_name: &str) -> (r: bool)
        ensures
            r == named(self.variables@, var_name@) is Some,
    {
        let key = var_name.to_string();
        position_named(&self.variables, &key).is_some()
    }
}

// ---------------------------------------------------------------------------
// Indexes
// ---------------------------------------------------------------------------

/// An id that can be compared with another of its kind.
pub trait IdKey: Copy + Sized {
    fn same(&self, other: &Self) -> (r: bool)
        ensures
            r == (*self == *other);
}

impl IdKey for ScopeID {
    fn same(&self, other: &Self) -> (r: bool) {
        self.0 == other.0
    }
}

impl IdKey for VariableID {
    fn same(&self, other: &Self) -> (r: bool) {
        self.0 == other.0
    }
}

impl IdKey for u32 {
    fn same(&self, other: &Self) -> (r: bool) {
        *self == *other
    }
}

impl IdKey for FieldID {
    fn same(&self, other: &Self) -> (r: bool) {
        self.module == other.module && self.index == other.index
    }
}

impl IdKey for FunctionID {
    fn same(&self, other: &Self) -> (r: bool) {
        self.module == other.module && self.index == other.index
    }
}

/// The values listed under `key`: those of its first entry, or none.
pub open spec fn listed<K, V>(entries: Seq<(K, Vec<V>)>, key: K) -> Seq<V>
    decreases entries.len(),
{
    if entries.len() == 0 {
        Seq::empty()
    } else if entries[0].0 == key {
        entries[0].1@
    } else {
        listed(entries.drop_first(), key)
    }
}

/// Adds `v` to the values listed under `key`.
pub(crate) fn push_listed<K: IdKey, V>(entries: &mut Vec<(K, Vec<V>)>, key: K, v: V)
    ensures
        forall|k: K|
            #[trigger] listed(final(entries)@, k) == if k == key {
                listed(old(entries)@, k).push(v)
            } else {
                listed(old(entries)@, k)
            },
{
    let ghost e0 = entries@;
    let mut i: usize = 0;
    assert(entries@.skip(0) =~= entries@);
    while i < entries.len()
        invariant
            entries@ == e0,
            e0 == old(entries)@,
            i <= entries.len(),
            listed(e0, key) == listed(e0.skip(i as int), key),
            forall|j: int| 0 <= j < i ==> e0[j].0 != key,
        decreases entries.len() - i,
    {
        if entries[i].0.same(&key) {
            let ghost pos = i as int;
            assert(listed(e0, key) == e0[pos].1@);
            entries[i].1.push(v);
            proof {
                let newlist = entries@[pos].1;
                assert(entries@ =~= e0.update(pos, (e0[pos].0, newlist)));
                assert(newlist@ =~= e0[pos].1@.push(v));
                assert forall|k: K| #[trigger] listed(entries@, k) == if k == key {
                    listed(e0, k).push(v)
                } else {
                    listed(e0, k)
                } by {
                    lemma_listed_update(e0, pos, newlist, k);
                }
            }
            return;
        }
        assert(entries@.skip(i as int).drop_first() =~= entries@.skip(i + 1));
        i += 1;
    }
    let mut list = Vec::new();
    list.push(v);
    let ghost l = list;
    entries.push((key, list));
    proof {
        assert forall|k: K| #[trigger] listed(entries@, k) == if k == key {
            listed(e0, k).push(v)
        } else {
            listed(e0, k)
        } by {
            lemma_listed_push(e0, key, l, k);
            if k == key {
                assert(listed(e0, key) == listed(e0.skip(e0.len() as int), key));
                assert(e0.skip(e0.len() as int) =~= Seq::<(K, Vec<V>)>::empty());
                assert(l@ =~= Seq::<V>::empty().push(v));
            }
        }
    }
}

proof fn lemma_listed_push<K, V>(entries: Seq<(K, Vec<V>)>, key: K, list: Vec<V>, k: K)
    requires
        forall|j: int| 0 <= j < entries.len() ==> entries[j].0 != key,
    ensures
        listed(entries.push((key, list)), k) == if k == key {
            list@
        } else {
            listed(entries, k)
        },
    decreases entries.len(),
{
    if entries.len() > 0 {
        assert(entries.push((key, list)).drop_first() =~= entries.drop_first().push((key, list)));
        assert(entries.push((key, list))[0] == entries[0]);
        lemma_listed_push(entries.drop_first(), key, list, k);
    } else {
        assert(entries.push((key, list)).drop_first() =~= entries);
    }
}

/// Takes out the values listed under `key`, leaving none listed there.
pub(crate) fn take_listed<K: IdKey, V>(entries: &mut Vec<(K, Vec<V>)>, key: K) -> (r: Vec<V>)
    ensures
        r@ == listed(old(entries)@, key),
        forall|k: K|
            #[trigger] listed(final(entries)@, k) == if k == key {
                Seq::<V>::empty()
            } else {
                listed(old(entries)@, k)
            },
{
    let ghost e0 = entries@;
    let mut i: usize = 0;
    assert(entries@.skip(0) =~= entries@);
    while i < entries.len()
        invariant
            entries@ == e0,
            e0 == old(entries)@,
            i <= entries.len(),
            listed(e0, key) == listed(e0.skip(i as int), key),
            forall|j: int| 0 <= j < i ==> e0[j].0 != key,
        decreases entries.len() - i,
    {
        if entries[i].0.same(&key) {
            let ghost pos = i as int;
            assert(listed(e0, key) == e0[pos].1@);
            let mut out: Vec<V> = Vec::new();
            let ghost empty = out;
            std::mem::swap(&mut entries[i].1, &mut out);
            proof {
                assert(entries@ =~= e0.update(pos, (e0[pos].0, empty)));
                assert forall|k: K| #[trigger] listed(entries@, k) == if k == key {
                    Seq::<V>::empty()
                } else {
                    listed(e0, k)
                } by {
                    lemma_listed_update(e0, pos, empty, k);
                }
            }
            return out;
        }
        assert(entries@.skip(i as int).drop_first() =~= entries@.skip(i + 1));
        i += 1;
    }
    proof {
        assert(e0.skip(e0.len() as int) =~= Seq::<(K, Vec<V>)>::empty());
    }
    Vec::new()
}

proof fn lemma_listed_update<K, V>(entries: Seq<(K, Vec<V>)>, i: int, list: Vec<V>, k: K)
    requires
        0 <= i < entries.len(),
        forall|j: int| 0 <= j < i ==> entries[j].0 != entries[i].0,
    ensures
        listed(entries.update(i, (entries[i].0, list)), k) == if k == entries[i].0 {
            list@
        } else {
            listed(entries, k)
        },
    decreases entries.len(),
{
    let u = entries.update(i, (entries[i].0, list));
    if i > 0 {
        assert(u.drop_first() =~= entries.drop_first().update(i - 1, (entries[i].0, list)));
        assert(u[0] == entries[0]);
        lemma_listed_update(entries.drop_first(), i - 1, list, k);
    } else {
        assert(u.drop_first() =~= entries.drop_first());
    }
}

/// Who uses each variable and function, and which scopes each scope contains.
#[derive(Debug)]
pub struct ModuleIndex {
    pub variable_reference: Vec<(VariableID, Vec<ReferenceID>)>,
    pub field_reference: Vec<(FieldID, Vec<ReferenceID>)>,
    pub function_reference: Vec<(FunctionID, Vec<ReferenceID>)>,
    pub scope_tree: Vec<(ScopeID, Vec<ScopeID>)>,
}

/// The declarations of another file that this one may use.
#[derive(Debug)]
pub struct ThinModule {
    pub file_id: u32,
    pub functions: Vec<Function>,
    pub structs: Vec<Struct>,
    pub fields: Vec<Field>,
}

/// The position of the first table in `ms` that belongs to `file`.
pub open spec fn thin_position(ms: Seq<ThinModule>, file: u32) -> Option<int>
    decreases ms.len(),
{
    if ms.len() == 0 {
        None
    } else if ms[0].file_id == file {
        Some(0)
    } else {
        match thin_position(ms.drop_first(), file) {
            Some(i) => Some(i + 1),
            None => None,
        }
    }
}

proof fn lemma_thin_position(ms: Seq<ThinModule>, file: u32)
    ensures
        thin_position(ms, file) matches Some(i) ==> 0 <= i < ms.len() && ms[i].file_id == file
            && forall|j: int| 0 <= j < i ==> ms[j].file_id != file,
        thin_position(ms, file) is None ==> forall|j: int| 0 <= j < ms.len() ==> ms[j].file_id != file,
    decreases ms.len(),
{
    if ms.len() > 0 && ms[0].file_id != file {
        lemma_thin_position(ms.drop_first(), file);
        assert forall|j: int| 1 <= j < ms.len() implies ms[j] == ms.drop_first()[j - 1] by {}
    }
}

/// The symbol tables of one source file.
///
/// Each table is indexed by the slot that its ids carry; entries are only ever added.
#[derive(Debug)]
pub struct Module {
    pub file_id: u32,
    pub variables: Vec<Variable>,
    pub reference: Vec<Reference>,
    pub functions: Vec<Function>,
    pub structs: Vec<Struct>,
    pub fields: Vec<Field>,
    pub scopes: Vec<Scope>,
    pub global_scope: ScopeID,
    /// The syntax tree of the file.
    pub green_tree: rowan::GreenNode,
    /// The values of the expressions known at compile time, by source range.
    pub value_table: Vec<(TextRange, Value)>,
    /// The variable declared at each source range.
    pub variable_map: Vec<(TextRange, VariableID)>,
    /// The reference at each source range.
    pub reference_map: Vec<(TextRange, ReferenceID)>,
    /// Struct names visible in this file, each at most once.
    pub struct_map: Vec<(String, StructID)>,
    /// Function names visible in this file, each at most once.
    pub function_map: Vec<(String, FunctionID)>,
    /// The type of each expression, by source range.
    pub type_table: Vec<(TextRange, Ty)>,
    pub semantic_errors: Vec<AnalyzeError>,
    /// The scope that analysis is in.
    pub current_scope: ScopeID,
    /// The return type of the function that analysis is in.
    pub current_function_ret_type: Option<Ty>,
    /// How many loops analysis is in.
    pub loop_depth: usize,
    /// The integer literals whose value does not fit their type, by source range.
    pub overflowing_literals: Vec<(TextRange, String)>,
    /// The element tree of each array initialiser, by source range.
    pub expand_array: Vec<(TextRange, crate::array::ArrayTree)>,
    pub index: ModuleIndex,
    /// The tables of the other files, once the project has shared them.
    pub metadata: Option<Vec<ThinModule>>,
}

/// Whether `b` is `a` but for the types recorded for expressions.
pub open spec fn same_but_types(a: Module, b: Module) -> bool {
    &&& a.file_id == b.file_id
    &&& a.variables == b.variables
    &&& a.reference == b.reference
    &&& a.functions == b.functions
    &&& a.structs == b.structs
    &&& a.fields == b.fields
    &&& a.scopes == b.scopes
    &&& a.global_scope == b.global_scope
    &&& a.green_tree == b.green_tree
    &&& a.value_table == b.value_table
    &&& a.variable_map == b.variable_map
    &&& a.reference_map == b.reference_map
    &&& a.struct_map == b.struct_map
    &&& a.function_map == b.function_map
    &&& a.semantic_errors == b.semantic_errors
    &&& a.current_scope == b.current_scope
    &&& a.current_function_ret_type == b.current_function_ret_type
    &&& a.loop_depth == b.loop_depth
    &&& a.overflowing_literals == b.overflowing_literals
    &&& a.expand_array == b.expand_array
    &&& a.index == b.index
    &&& a.metadata == b.metadata
}

/// The file number of a module that no file has been given yet.
pub const NO_FILE: u32 = 4294967295u32;

/// The scope number that no scope has.
pub const NO_SCOPE: u32 = 4294967295u32;

/// Parameter names and types as mathematical values.
pub open spec fn metas_view(ms: Seq<(String, Ty)>) -> Seq<(Seq<char>, TyView)> {
    ms.map_values(|e: (String, Ty)| (e.0@, e.1@))
}

/// A function as a mathematical value.
pub struct FunctionView {
    pub name: Seq<char>,
    pub params: Seq<VariableID>,
    pub meta_types: Seq<(Seq<char>, TyView)>,
    pub ret_type: TyView,
    pub have_impl: bool,
    pub is_variadic: bool,
    pub range: TextRange,
}

impl View for Function {
    type V = FunctionView;

    open spec fn view(&self) -> FunctionView {
        FunctionView {
            name: self.name@,
            params: self.params@,
            meta_types: metas_view(self.meta_types@),
            ret_type: self.ret_type@,
            have_impl: self.have_impl,
            is_variadic: self.is_variadic,
            range: self.range,
        }
    }
}

impl Function {
    /// A copy of the function.
    pub fn duplicate(&self) -> (r: Function)
        ensures
            r@ == self@,
    {
        let mut meta_types: Vec<(String, Ty)> = Vec::new();
        let mut i: usize = 0;
        while i < self.meta_types.len()
            invariant
                i <= self.meta_types.len(),
                meta_types@.len() == i,
                forall|j: int|
                    0 <= j < i ==> (#[trigger] meta_types@[j]).0@ == self.meta_types@[j].0@ && meta_types@[j].1@
                        == self.meta_types@[j].1@,
            decreases self.meta_types.len() - i,
        {
            let (n, t) = &self.meta_types[i];
            meta_types.push((n.clone(), t.duplicate()));
            i += 1;
        }
        let r = Function {
            name: self.name.clone(),
            params: self.params.clone(),
            meta_types,
            ret_type: self.ret_type.duplicate(),
            have_impl: self.have_impl,
            is_variadic: self.is_variadic,
            range: self.range,
        };
        assert(metas_view(r.meta_types@) =~= metas_view(self.meta_types@));
        r
    }
}

/// A field as a mathematical value.
pub struct FieldView {
    pub name: Seq<char>,
    pub ty: TyView,
    pub range: TextRange,
}

impl View for Field {
    type V = FieldView;

    open spec fn view(&self) -> FieldView {
        FieldView { name: self.name@, ty: self.ty@, range: self.range }
    }
}

impl Field {
    /// A copy of the field.
    pub fn duplicate(&self) -> (r: Field)
        ensures
            r@ == self@,
    {
        Field { name: self.name.clone(), ty: self.ty.duplicate(), range: self.range }
    }
}

/// Whether the field table `fields` names the field in slot `index` as `name`.
pub open spec fn field_named(fields: Seq<Field>, index: u32, name: Seq<char>) -> bool {
    index < fields.len() && fields[index as int].name@ == name
}

/// The position of the first field id in `ids` whose field in `fields` is named `name`.
pub open spec fn first_field_named(ids: Seq<FieldID>, fields: Seq<Field>, name: Seq<char>) -> Option<int>
    decreases ids.len(),
{
    if ids.len() == 0 {
        None
    } else if field_named(fields, ids[0].index, name) {
        Some(0)
    } else {
        match first_field_named(ids.drop_first(), fields, name) {
            Some(i) => Some(i + 1),
            None => None,
        }
    }
}

proof fn lemma_first_field_named(ids: Seq<FieldID>, fields: Seq<Field>, name: Seq<char>)
    ensures
        first_field_named(ids, fields, name) matches Some(i) ==> 0 <= i < ids.len() && field_named(
            fields,
            ids[i].index,
            name,
        ) && forall|j: int| 0 <= j < i ==> !field_named(fields, ids[j].index, name),
        first_field_named(ids, fields, name) is None ==> forall|j: int|
            0 <= j < ids.len() ==> !field_named(fields, ids[j].index, name),
    decreases ids.len(),
{
    if ids.len() > 0 && !field_named(fields, ids[0].index, name) {
        lemma_first_field_named(ids.drop_first(), fields, name);
        assert forall|j: int| 1 <= j < ids.len() implies ids[j] == ids.drop_first()[j - 1] by {}
    }
}

/// The field that `Struct::field_index` finds is the first of the struct's
/// fields with that name, and `Struct::field` gives the id at that position;
/// the position fits the `u32` it is returned as while the struct has at most
/// `u32::MAX` fields.
pub proof fn lemma_field_index_first(s: Struct, m: Module, name: Seq<char>)
    requires
        s.fields@.len() <= u32::MAX,
    ensures
        first_field_named(s.fields@, m.fields@, name) matches Some(i) ==> {
            &&& 0 <= i < s.fields@.len()
            &&& (i as u32) as int == i
            &&& field_named(m.fields@, s.fields@[i].index, name)
            &&& forall|j: int| 0 <= j < i ==> !field_named(m.fields@, s.fields@[j].index, name)
        },
        first_field_named(s.fields@, m.fields@, name) is None ==> forall|j: int|
            0 <= j < s.fields@.len() ==> !field_named(m.fields@, s.fields@[j].index, name),
{
    lemma_first_field_named(s.fields@, m.fields@, name);
}

impl Struct {
    pub(crate) fn find_field(&self, module: &Module, name: &str) -> (r: Option<usize>)
        ensures
            r matches Some(i) ==> first_field_named(self.fields@, module.fields@, name@) == Some(i as int),
            r is None ==> first_field_named(self.fields@, module.fields@, name@) is None,
    {
        proof {
            lemma_first_field_named(self.fields@, module.fields@, name@);
        }
        let key = name.to_string();
        let mut i: usize = 0;
        while i < self.fields.len()
            invariant
                key@ == name@,
                i <= self.fields.len(),
                forall|j: int| 0 <= j < i ==> !field_named(module.fields@, self.fields@[j].index, name@),
                first_field_named(self.fields@, module.fields@, name@) matches Some(k) ==> 0 <= k < self.fields@.len()
                    && field_named(module.fields@, self.fields@[k].index, name@) && forall|j: int|
                    0 <= j < k ==> !field_named(module.fields@, self.fields@[j].index, name@),
                first_field_named(self.fields@, module.fields@, name@) is None ==> forall|j: int|
                    0 <= j < self.fields@.len() ==> !field_named(module.fields@, self.fields@[j].index, name@),
            decreases self.fields.len() - i,
        {
            let fid = self.fields[i];
            if (fid.index as usize) < module.fields.len() {
                if module.fields[fid.index as usize].name == key {
                    return Some(i);
                }
            }
            i += 1;
        }
        None
    }

    /// The position of the field named `name`, looked up in `module`'s field table.
    pub fn field_index(&self, module: &Module, name: &str) -> (r: Option<u32>)
        ensures
            r == (match first_field_named(self.fields@, module.fields@, name@) {
                Some(i) => Some(i as u32),
                None => None,
            }),
    {
        match self.find_field(module, name) {
            Some(i) => Some(i as u32),
            None => None,
        }
    }

    /// The id of the field named `name`, looked up in `module`'s field table.
    pub fn field(&self, module: &Module, name: &str) -> (r: Option<FieldID>)
        ensures
            r == (match first_field_named(self.fields@, module.fields@, name@) {
                Some(i) => Some(self.fields@[i]),
                None => None,
            }),
    {
        proof {
            lemma_first_field_named(self.fields@, module.fields@, name@);
        }
        match self.find_field(module, name) {
            Some(i) => Some(self.fields[i]),
            None => None,
        }
    }

    /// The id of the field at position `index`.
    pub fn field_at(&self, index: usize) -> (r: Option<FieldID>)
        ensures
            r == (if index < self.fields@.len() {
                Some(self.fields@[index as int])
            } else {
                None
            }),
    {
        if index < self.fields.len() {
            Some(self.fields[index])
        } else {
            None
        }
    }
}

impl ThinModule {
    /// The declarations of `module` that other files may use.
    pub fn new(module: &Module) -> (r: ThinModule)
        ensures
            r.file_id == module.file_id,
            r.functions@.map_values(|f: Function| f@) == module.functions@.map_values(|f: Function| f@),
            r.structs@.map_values(|s: Struct| s@) == module.structs@.map_values(|s: Struct| s@),
            r.fields@.map_values(|f: Field| f@) == module.fields@.map_values(|f: Field| f@),
    {
        let mut functions: Vec<Function> = Vec::new();
        let mut i: usize = 0;
        while i < module.functions.len()
            invariant
                i <= module.functions.len(),
                functions@.len() == i,
                forall|j: int| 0 <= j < i ==> (#[trigger] functions@[j])@ == module.functions@[j]@,
            decreases module.functions.len() - i,
        {
            functions.push(module.functions[i].duplicate());
            i += 1;
        }
        let mut structs: Vec<Struct> = Vec::new();
        let mut i: usize = 0;
        while i < module.structs.len()
            invariant
                i <= module.structs.len(),
                structs@.len() == i,
                forall|j: int| 0 <= j < i ==> (#[trigger] structs@[j])@ == module.structs@[j]@,
            decreases module.structs.len() - i,
        {
            structs.push(module.structs[i].duplicate());
            i += 1;
        }
        let mut fields: Vec<Field> = Vec::new();
        let mut i: usize = 0;
        while i < module.fields.len()
            invariant
                i <= module.fields.len(),
                fields@.len() == i,
                forall|j: int| 0 <= j < i ==> (#[trigger] fields@[j])@ == module.fields@[j]@,
            decreases module.fields.len() - i,
        {
            fields.push(module.fields[i].duplicate());
            i += 1;
        }
        let r = ThinModule { file_id: module.file_id, functions, structs, fields };
        assert(r.functions@.map_values(|f: Function| f@) =~= module.functions@.map_values(|f: Function| f@));
        assert(r.structs@.map_values(|s: Struct| s@) =~= module.structs@.map_values(|s: Struct| s@));
        assert(r.fields@.map_values(|f: Field| f@) =~= module.fields@.map_values(|f: Field| f@));
        r
    }
}

impl Module {
    /// An empty module for the syntax tree `green_tree`, not yet given a file.
    pub fn new(green_tree: rowan::GreenNode) -> (r: Module)
        ensures
            r.file_id == NO_FILE,
            r.green_tree == green_tree,
            finished_tree(r.green_tree) == finished_tree(green_tree),
            r.variables@.len() == 0,
            r.reference@.len() == 0,
            r.functions@.len() == 0,
            r.structs@.len() == 0,
            r.fields@.len() == 0,
            r.scopes@.len() == 0,
            r.value_table@.len() == 0,
            r.variable_map@.len() == 0,
            r.reference_map@.len() == 0,
            r.struct_map@.len() == 0,
            r.function_map@.len() == 0,
            r.type_table@.len() == 0,
            r.semantic_errors@.len() == 0,
            r.global_scope == ScopeID(NO_SCOPE),
            r.current_scope == ScopeID(NO_SCOPE),
            r.overflowing_literals@.len() == 0,
            r.expand_array@.len() == 0,
            r.current_function_ret_type is None,
            r.loop_depth == 0,
            r.index.variable_reference@.len() == 0,
            r.index.field_reference@.len() == 0,
            r.index.function_reference@.len() == 0,
            r.index.scope_tree@.len() == 0,
            r.metadata is None,
    {
        Module {
            file_id: NO_FILE,
            variables: Vec::new(),
            reference: Vec::new(),
            functions: Vec::new(),
            structs: Vec::new(),
            fields: Vec::new(),
            scopes: Vec::new(),
            global_scope: ScopeID(NO_SCOPE),
            green_tree,
            value_table: Vec::new(),
            variable_map: Vec::new(),
            reference_map: Vec::new(),
            struct_map: Vec::new(),
            function_map: Vec::new(),
            type_table: Vec::new(),
            semantic_errors: Vec::new(),
            current_scope: ScopeID(NO_SCOPE),
            overflowing_literals: Vec::new(),
            expand_array: Vec::new(),
            current_function_ret_type: None,
            loop_depth: 0,
            index: ModuleIndex {
                variable_reference: Vec::new(),
                field_reference: Vec::new(),
                function_reference: Vec::new(),
                scope_tree: Vec::new(),
            },
            metadata: None,
        }
    }

    /// Whether the expression at `range` has a value known at compile time.
    pub fn is_compile_time_constant(&self, range: TextRange) -> (r: bool)
        ensures
            r == at_range(self.value_table@, range) is Some,
    {
        position_at_range(&self.value_table, range).is_some()
    }

    /// The compile-time value of the expression at `range`.
    pub fn get_value_by_range(&self, range: TextRange) -> (r: Option<&Value>)
        ensures
            r matches Some(v) ==> at_range(self.value_table@, range) == Some(*v),
            r is None ==> at_range(self.value_table@, range) is None,
    {
        match position_at_range(&self.value_table, range) {
            Some(i) => Some(&self.value_table[i].1),
            None => None,
        }
    }

    /// Records the type of the expression at `range`.
    pub fn set_expr_type(&mut self, range: TextRange, ty: Ty)
        ensures
            forall|key: TextRange|
                #[trigger] at_range(final(self).type_table@, key) == if key == range {
                    Some(ty)
                } else {
                    at_range(old(self).type_table@, key)
                },
            same_but_types(*old(self), *final(self)),
    {
        bind_range(&mut self.type_table, range, ty);
    }

    /// The type recorded for the expression at `range`.
    pub fn get_expr_type(&self, range: TextRange) -> (r: Option<&Ty>)
        ensures
            r matches Some(t) ==> at_range(self.type_table@, range) == Some(*t),
            r is None ==> at_range(self.type_table@, range) is None,
    {
        match position_at_range(&self.type_table, range) {
            Some(i) => Some(&self.type_table[i].1),
            None => None,
        }
    }

    /// Adds a scope inside `parent` and returns its id.
    pub fn new_scope(&mut self, parent: Option<ScopeID>, range: TextRange) -> (r: ScopeID)
        requires
            old(self).scopes.len() < u32::MAX,
        ensures
            r.0 == old(self).scopes.len(),
            final(self).scopes@.len() == old(self).scopes@.len() + 1,
            forall|i: int| 0 <= i < old(self).scopes@.len() ==> #[trigger] final(self).scopes@[i] == old(self).scopes@[i],
            final(self).scopes@[r.0 as int].parent == parent,
            final(self).scopes@[r.0 as int].variables@.len() == 0,
            final(self).scopes@[r.0 as int].range == range,
            forall|k: ScopeID|
                #[trigger] listed(final(self).index.scope_tree@, k) == if parent == Some(k) {
                    listed(old(self).index.scope_tree@, k).push(r)
                } else {
                    listed(old(self).index.scope_tree@, k)
                },
            scopes_wf(old(self).scopes@) && (parent matches Some(p) ==> p.0 < old(self).scopes.len())
                ==> scopes_wf(final(self).scopes@),
            final(self).file_id == old(self).file_id,
            final(self).variables == old(self).variables,
            final(self).functions == old(self).functions,
            final(self).structs == old(self).structs,
            final(self).fields == old(self).fields,
            final(self).type_table == old(self).type_table,
            final(self).value_table == old(self).value_table,
            final(self).variable_map == old(self).variable_map,
            final(self).struct_map == old(self).struct_map,
            final(self).function_map == old(self).function_map,
            final(self).metadata == old(self).metadata,
            final(self).reference == old(self).reference,
            final(self).semantic_errors == old(self).semantic_errors,
            final(self).current_scope == old(self).current_scope,
            final(self).global_scope == old(self).global_scope,
            final(self).overflowing_literals == old(self).overflowing_literals,
            final(self).current_function_ret_type == old(self).current_function_ret_type,
            final(self).loop_depth == old(self).loop_depth,
    {
        let id = ScopeID(self.scopes.len() as u32);
        self.scopes.push(Scope { parent, variables: Vec::new(), range });
        if let Some(pid) = parent {
            push_listed(&mut self.index.scope_tree, pid, id);
        }
        id
    }

    /// Adds a function and returns its id.
    pub fn new_function(
        &mut self,
        name: String,
        params: Vec<VariableID>,
        meta_types: Vec<(String, Ty)>,
        ret_type: Ty,
        have_impl: bool,
        is_variadic: bool,
        range: TextRange,
    ) -> (r: FunctionID)
        requires
            old(self).functions.len() < u32::MAX,
        ensures
            r == (FunctionID { module: old(self).file_id, index: old(self).functions.len() as u32 }),
            final(self).functions@.len() == old(self).functions@.len() + 1,
            forall|i: int|
                0 <= i < old(self).functions@.len() ==> #[trigger] final(self).functions@[i] == old(self).functions@[i],
            final(self).functions@[r.index as int]@ == (FunctionView {
                name: name@,
                params: params@,
                meta_types: metas_view(meta_types@),
                ret_type: ret_type@,
                have_impl,
                is_variadic,
                range,
            }),
            final(self).file_id == old(self).file_id,
            final(self).metadata == old(self).metadata,
            final(self).structs == old(self).structs,
            final(self).fields == old(self).fields,
            final(self).function_map == old(self).function_map,
            final(self).struct_map == old(self).struct_map,
            final(self).semantic_errors == old(self).semantic_errors,
    {
        let index = self.functions.len() as u32;
        self.functions.push(Function { name, params, meta_types, ret_type, have_impl, is_variadic, range });
        FunctionID::new(self.file_id, index)
    }

    /// The variable with the id `var_id`.
    pub fn get_varaible_by_id(&self, var_id: VariableID) -> (r: Option<&Variable>)
        ensures
            r matches Some(v) ==> var_id.0 < self.variables@.len() && *v == self.variables@[var_id.0 as int],
            r is None ==> var_id.0 >= self.variables@.len(),
    {
        if (var_id.0 as usize) < self.variables.len() {
            Some(&self.variables[var_id.0 as usize])
        } else {
            None
        }
    }

    /// The variable with the id `id`.
    pub fn get_variable_by_id(&self, id: VariableID) -> (r: Option<&Variable>)
        ensures
            r matches Some(v) ==> id.0 < self.variables@.len() && *v == self.variables@[id.0 as int],
            r is None ==> id.0 >= self.variables@.len(),
    {
        self.get_varaible_by_id(id)
    }

    /// The variable declared at `range`.
    pub fn get_varaible_by_range(&self, range: TextRange) -> (r: Option<&Variable>)
        ensures
            r matches Some(v) ==> at_range(self.variable_map@, range) matches Some(id) && id.0
                < self.variables@.len() && *v == self.variables@[id.0 as int],
            r is None ==> (at_range(self.variable_map@, range) matches Some(id) ==> id.0 >= self.variables@.len()),
    {
        match position_at_range(&self.variable_map, range) {
            Some(i) => self.get_varaible_by_id(self.variable_map[i].1),
            None => None,
        }
    }

    /// The reference with the id `ref_id`.
    pub fn get_reference_by_id(&self, ref_id: ReferenceID) -> (r: Option<&Reference>)
        ensures
            r matches Some(x) ==> ref_id.0 < self.reference@.len() && *x == self.reference@[ref_id.0 as int],
            r is None ==> ref_id.0 >= self.reference@.len(),
    {
        if (ref_id.0 as usize) < self.reference.len() {
            Some(&self.reference[ref_id.0 as usize])
        } else {
            None
        }
    }

    /// The reference at `range`.
    pub fn get_reference_by_range(&self, range: TextRange) -> (r: Option<&Reference>)
        ensures
            r matches Some(x) ==> at_range(self.reference_map@, range) matches Some(id) && id.0
                < self.reference@.len() && *x == self.reference@[id.0 as int],
            r is None ==> (at_range(self.reference_map@, range) matches Some(id) ==> id.0 >= self.reference@.len()),
    {
        match position_at_range(&self.reference_map, range) {
            Some(i) => self.get_reference_by_id(self.reference_map[i].1),
            None => None,
        }
    }

    /// The struct visible in this file under `name`.
    pub fn get_struct_id_by_name(&self, name: &str) -> (r: Option<StructID>)
        ensures
            r == named(self.struct_map@, name@),
    {
        let key = name.to_string();
        match position_named(&self.struct_map, &key) {
            Some(i) => Some(self.struct_map[i].1),
            None => None,
        }
    }

    /// The function visible in this file under `name`.
    pub fn get_function_id_by_name(&self, name: &str) -> (r: Option<FunctionID>)
        ensures
            r == named(self.function_map@, name@),
    {
        let key = name.to_string();
        match position_named(&self.function_map, &key) {
            Some(i) => Some(self.function_map[i].1),
            None => None,
        }
    }

    /// The function that `id` names, from this file or from a shared table.
    pub open spec fn function_at(&self, id: FunctionID) -> Option<FunctionView> {
        if id.module == self.file_id {
            if id.index < self.functions.len() {
                Some(self.functions@[id.index as int]@)
            } else {
                None
            }
        } else {
            match self.metadata {
                None => None,
                Some(ms) => match thin_position(ms@, id.module) {
                    None => None,
                    Some(j) => if id.index < ms@[j].functions.len() {
                        Some(ms@[j].functions@[id.index as int]@)
                    } else {
                        None
                    },
                },
            }
        }
    }

    /// The function that `id` names, from this file or from a shared table.
    pub fn get_function_by_id(&self, id: FunctionID) -> (r: Option<Function>)
        ensures
            r matches Some(f) ==> self.function_at(id) == Some(f@),
            r is None ==> self.function_at(id) is None,
    {
        if id.module == self.file_id {
            if (id.index as usize) < self.functions.len() {
                Some(self.functions[id.index as usize].duplicate())
            } else {
                None
            }
        } else {
            match &self.metadata {
                None => None,
                Some(ms) => match Self::find_thin(ms, id.module) {
                    None => None,
                    Some(j) => {
                        if (id.index as usize) < ms[j].functions.len() {
                            Some(ms[j].functions[id.index as usize].duplicate())
                        } else {
                            None
                        }
                    },
                },
            }
        }
    }

    /// Adds a struct and returns its id.
    pub fn new_struct(&mut self, name: String, fields: Vec<FieldID>, range: TextRange) -> (r: StructID)
        requires
            old(self).structs.len() < u32::MAX,
        ensures
            r == (StructID { module: old(self).file_id, index: old(self).structs.len() as u32 }),
            final(self).structs@.len() == old(self).structs@.len() + 1,
            forall|i: int| 0 <= i < old(self).structs@.len() ==> #[trigger] final(self).structs@[i] == old(self).structs@[i],
            final(self).structs@[r.index as int]@ == (StructView { name: name@, fields: fields@, range }),
            final(self).file_id == old(self).file_id,
            final(self).metadata == old(self).metadata,
            final(self).functions == old(self).functions,
            final(self).fields == old(self).fields,
            final(self).function_map == old(self).function_map,
            final(self).struct_map == old(self).struct_map,
            final(self).semantic_errors == old(self).semantic_errors,
            final(self).variables == old(self).variables,
            final(self).scopes == old(self).scopes,
            final(self).current_scope == old(self).current_scope,
            final(self).global_scope == old(self).global_scope,
            final(self).type_table == old(self).type_table,
            final(self).value_table == old(self).value_table,
            final(self).variable_map == old(self).variable_map,
            final(self).reference == old(self).reference,
    {
        let index = self.structs.len() as u32;
        self.structs.push(Struct { name, fields, range });
        StructID::new(self.file_id, index)
    }

    /// Adds a struct field and returns its id.
    pub fn new_field(&mut self, name: String, ty: Ty, range: TextRange) -> (r: FieldID)
        requires
            old(self).fields.len() < u32::MAX,
        ensures
            r == (FieldID { module: old(self).file_id, index: old(self).fields.len() as u32 }),
            final(self).fields@.len() == old(self).fields@.len() + 1,
            forall|i: int| 0 <= i < old(self).fields@.len() ==> #[trigger] final(self).fields@[i] == old(self).fields@[i],
            final(self).fields@[r.index as int]@ == (FieldView { name: name@, ty: ty@, range }),
            final(self).file_id == old(self).file_id,
            final(self).metadata == old(self).metadata,
            final(self).value_table == old(self).value_table,
            final(self).type_table == old(self).type_table,
            final(self).scopes == old(self).scopes,
            final(self).variables == old(self).variables,
            final(self).current_scope == old(self).current_scope,
            final(self).functions == old(self).functions,
            final(self).structs == old(self).structs,
            final(self).function_map == old(self).function_map,
            final(self).struct_map == old(self).struct_map,
            final(self).semantic_errors == old(self).semantic_errors,
    {
        let index = self.fields.len() as u32;
        self.fields.push(Field { name, ty, range });
        FieldID::new(self.file_id, index)
    }

    /// The field that `id` names, from this file or from a shared table.
    pub open spec fn field_at(&self, id: FieldID) -> Option<FieldView> {
        if id.module == self.file_id {
            if id.index < self.fields.len() {
                Some(self.fields@[id.index as int]@)
            } else {
                None
            }
        } else {
            match self.metadata {
                None => None,
                Some(ms) => match thin_position(ms@, id.module) {
                    None => None,
                    Some(j) => if id.index < ms@[j].fields.len() {
                        Some(ms@[j].fields@[id.index as int]@)
                    } else {
                        None
                    },
                },
            }
        }
    }

    /// The field that `id` names, from this file or from a shared table.
    pub fn get_field_by_id(&self, id: FieldID) -> (r: Option<Field>)
        ensures
            r matches Some(f) ==> self.field_at(id) == Some(f@),
            r is None ==> self.field_at(id) is None,
    {
        if id.module == self.file_id {
            if (id.index as usize) < self.fields.len() {
                Some(self.fields[id.index as usize].duplicate())
            } else {
                None
            }
        } else {
            match &self.metadata {
                None => None,
                Some(ms) => match Self::find_thin(ms, id.module) {
                    None => None,
                    Some(j) => {
                        if (id.index as usize) < ms[j].fields.len() {
                            Some(ms[j].fields[id.index as usize].duplicate())
                        } else {
                            None
                        }
                    },
                },
            }
        }
    }

    /// Records a use of a variable or a function at `range`.
    pub fn new_reference(&mut self, range: TextRange, tag: ReferenceTag)
        requires
            old(self).reference.len() < u32::MAX,
        ensures
            final(self).reference@ == old(self).reference@.push(Reference { tag, range }),
            forall|key: TextRange|
                #[trigger] at_range(final(self).reference_map@, key) == if key == range {
                    Some(ReferenceID(old(self).reference.len() as u32))
                } else {
                    at_range(old(self).reference_map@, key)
                },
            forall|k: VariableID|
                #[trigger] listed(final(self).index.variable_reference@, k) == if tag == ReferenceTag::VarRead(k) {
                    listed(old(self).index.variable_reference@, k).push(ReferenceID(old(self).reference.len() as u32))
                } else {
                    listed(old(self).index.variable_reference@, k)
                },
            forall|k: FieldID|
                #[trigger] listed(final(self).index.field_reference@, k) == if tag == ReferenceTag::FieldRead(k) {
                    listed(old(self).index.field_reference@, k).push(ReferenceID(old(self).reference.len() as u32))
                } else {
                    listed(old(self).index.field_reference@, k)
                },
            forall|k: FunctionID|
                #[trigger] listed(final(self).index.function_reference@, k) == if tag == ReferenceTag::FuncCall(k) {
                    listed(old(self).index.function_reference@, k).push(ReferenceID(old(self).reference.len() as u32))
                } else {
                    listed(old(self).index.function_reference@, k)
                },
            final(self).index.scope_tree == old(self).index.scope_tree,
            final(self).value_table == old(self).value_table,
            final(self).type_table == old(self).type_table,
            final(self).semantic_errors == old(self).semantic_errors,
            final(self).overflowing_literals == old(self).overflowing_literals,
            final(self).variables == old(self).variables,
            final(self).functions == old(self).functions,
            final(self).structs == old(self).structs,
            final(self).fields == old(self).fields,
            final(self).scopes == old(self).scopes,
            final(self).variable_map == old(self).variable_map,
            final(self).struct_map == old(self).struct_map,
            final(self).function_map == old(self).function_map,
            final(self).file_id == old(self).file_id,
            final(self).global_scope == old(self).global_scope,
            final(self).current_scope == old(self).current_scope,
            final(self).loop_depth == old(self).loop_depth,
            final(self).current_function_ret_type == old(self).current_function_ret_type,
            final(self).expand_array == old(self).expand_array,
            final(self).green_tree == old(self).green_tree,
            final(self).metadata == old(self).metadata,
    {
        let ref_id = ReferenceID(self.reference.len() as u32);
        self.reference.push(Reference { range, tag });
        bind_range(&mut self.reference_map, range, ref_id);
        match tag {
            ReferenceTag::VarRead(variable_id) => {
                push_listed(&mut self.index.variable_reference, variable_id, ref_id);
            },
            ReferenceTag::FieldRead(field_id) => {
                push_listed(&mut self.index.field_reference, field_id, ref_id);
            },
            ReferenceTag::FuncCall(function_id) => {
                push_listed(&mut self.index.function_reference, function_id, ref_id);
            },
        }
    }

    /// The variable that `var_name` resolves to from the scope analysis is in.
    pub fn find_variable_def(&self, var_name: &str) -> (r: Option<VariableID>)
        requires
            scopes_wf(self.scopes@),
        ensures
            r == (if self.current_scope.0 < self.scopes@.len() {
                lookup_in(self.scopes@, self.current_scope.0 as int, var_name@)
            } else {
                None
            }),
    {
        if (self.current_scope.0 as usize) < self.scopes.len() {
            let scope = &self.scopes[self.current_scope.0 as usize];
            assert(self.scopes@[self.current_scope.0 as int] == *scope);
            proof {
                if let Some(pp) = scope.parent {
                    lemma_chain_lookup_wf(self.scopes@, pp.0 as int, var_name@, self.scopes@.len());
                    assert(ScopeID(pp.0 as int as u32) == pp);
                }
            }
            scope.look_up_variable(self, var_name)
        } else {
            None
        }
    }

    /// Records a semantic error.
    pub fn new_error(&mut self, error: AnalyzeError)
        ensures
            final(self).semantic_errors@ == old(self).semantic_errors@.push(error),
    {
        self.semantic_errors.push(error);
    }

    /// The syntax tree of the file.
    pub fn get_green_tree(&self) -> (r: rowan::GreenNode)
        ensures
            finished_tree(r) == finished_tree(self.green_tree),
    {
        green_clone(&self.green_tree)
    }

    /// The struct that `id` names, from this file or from a shared table.
    pub open spec fn struct_at(&self, id: StructID) -> Option<StructView> {
        if id.module == self.file_id {
            if id.index < self.structs.len() {
                Some(self.structs@[id.index as int]@)
            } else {
                None
            }
        } else {
            match self.metadata {
                None => None,
                Some(ms) => match thin_position(ms@, id.module) {
                    None => None,
                    Some(j) => if id.index < ms@[j].structs.len() {
                        Some(ms@[j].structs@[id.index as int]@)
                    } else {
                        None
                    },
                },
            }
        }
    }

    fn find_thin(ms: &Vec<ThinModule>, file: u32) -> (r: Option<usize>)
        ensures
            r matches Some(j) ==> thin_position(ms@, file) == Some(j as int) && j < ms.len(),
            r is None ==> thin_position(ms@, file) is None,
    {
        proof {
            lemma_thin_position(ms@, file);
        }
        let mut j: usize = 0;
        while j < ms.len()
            invariant
                j <= ms.len(),
                forall|k: int| 0 <= k < j ==> ms@[k].file_id != file,
                thin_position(ms@, file) matches Some(i) ==> 0 <= i < ms.len() && ms@[i].file_id
                    == file && forall|k: int| 0 <= k < i ==> ms@[k].file_id != file,
                thin_position(ms@, file) is None ==> forall|k: int|
                    0 <= k < ms.len() ==> ms@[k].file_id != file,
            decreases ms.len() - j,
        {
            if ms[j].file_id == file {
                return Some(j);
            }
            j += 1;
        }
        None
    }

    /// The struct that `id` names, from this file or from a shared table.
    pub fn get_struct_by_id(&self, id: StructID) -> (r: Option<Struct>)
        ensures
            r matches Some(s) ==> self.struct_at(id) == Some(s@),
            r is None ==> self.struct_at(id) is None,
    {
        if id.module == self.file_id {
            if (id.index as usize) < self.structs.len() {
                Some(self.structs[id.index as usize].duplicate())
            } else {
                None
            }
        } else {
            match &self.metadata {
                None => None,
                Some(ms) => match Self::find_thin(ms, id.module) {
                    None => None,
                    Some(j) => {
                        if (id.index as usize) < ms[j].structs.len() {
                            Some(ms[j].structs[id.index as usize].duplicate())
                        } else {
                            None
                        }
                    },
                },
            }
        }
    }

    /// The function `id` of this file, to change in place.
    pub fn get_function_mut_by_id(&mut self, id: FunctionID) -> (r: Option<&mut Function>)
        requires
            id.module == old(self).file_id,
        ensures
            r is None <==> id.index >= old(self).functions.len(),
            r is None ==> final(self).functions == old(self).functions,
            r matches Some(f) ==> *f == old(self).functions@[id.index as int] && final(self).functions@ == old(
                self,
            ).functions@.update(id.index as int, *final(f)),
            final(self).file_id == old(self).file_id,
            final(self).structs == old(self).structs,
            final(self).fields == old(self).fields,
            final(self).function_map == old(self).function_map,
            final(self).semantic_errors == old(self).semantic_errors,
    {
        if (id.index as usize) < self.functions.len() {
            Some(&mut self.functions[id.index as usize])
        } else {
            None
        }
    }

    /// The struct `id` of this file, to change in place.
    pub fn get_struct_mut_by_id(&mut self, id: StructID) -> (r: Option<&mut Struct>)
        requires
            id.module == old(self).file_id,
        ensures
            r is None <==> id.index >= old(self).structs.len(),
            r is None ==> final(self).structs == old(self).structs,
            r matches Some(s) ==> *s == old(self).structs@[id.index as int] && final(self).structs@ == old(
                self,
            ).structs@.update(id.index as int, *final(s)),
            final(self).file_id == old(self).file_id,
            final(self).functions == old(self).functions,
            final(self).fields == old(self).fields,
            final(self).struct_map == old(self).struct_map,
            final(self).semantic_errors == old(self).semantic_errors,
    {
        if (id.index as usize) < self.structs.len() {
            Some(&mut self.structs[id.index as usize])
        } else {
            None
        }
    }
}

} // verus!
