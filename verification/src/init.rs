//! Initialiser lists: the tree of elements that a braced initialiser gives an
//! array (braces may be left out between dimensions), and the value that one
//! gives a struct, field by field.

use vstd::prelude::*;

use crate::array::{tree_view, ArrayInitError, ArrayTree, ArrayTreeValue, ArrayTreeView};
use crate::error::AnalyzeError;
use crate::module::{at_range, bind_range, same_symbols, Module, StructID, StructView, TextRange};
use crate::literal::type_at;
use crate::types::{array_type, assignable, ty_view, unconst, Ty, TyView};
use crate::value::{Value, ValueView};

verus! {

/// An initialiser of the source: its range, the range without trivia, the
/// range of the expression it holds (when it holds one), and the
/// initialisers nested in it, in order.
#[derive(Debug)]
pub struct InitValNode {
    pub range: TextRange,
    pub trimmed: TextRange,
    pub expr: Option<TextRange>,
    pub inits: Vec<InitValNode>,
}

/// The constant values and the array initialisers recorded so far, by source range.
pub struct Tables {
    pub values: Map<TextRange, ValueView>,
    pub arrays: Map<TextRange, ArrayTreeView>,
}

/// The value table as a map.
pub open spec fn values_of(vt: Seq<(TextRange, Value)>) -> Map<TextRange, ValueView> {
    Map::new(|k: TextRange| at_range(vt, k) is Some, |k: TextRange| at_range(vt, k)->0@)
}

/// The table of array initialisers as a map.
pub open spec fn arrays_of(ea: Seq<(TextRange, ArrayTree)>) -> Map<TextRange, ArrayTreeView> {
    Map::new(|k: TextRange| at_range(ea, k) is Some, |k: TextRange| tree_view(at_range(ea, k)->0))
}

/// The tables of a module.
pub open spec fn tables_of(m: &Module) -> Tables {
    Tables { values: values_of(m.value_table@), arrays: arrays_of(m.expand_array@) }
}

/// An error of an array initialiser, as a mathematical value.
pub enum ArrayErrView {
    AssignArrayToNumber,
    IndexOutOfBound,
    MisMatchIndexAndType,
    TypeMismatch(TyView, TyView, TextRange),
    InitialStructValue(Box<InitErrView>),
}

/// An error of a struct initialiser, as a mathematical value.
pub enum InitErrView {
    StructUndefined(Seq<char>, TextRange),
    StructInitFieldCountMismatch(nat, nat, TextRange),
    ConstantExprExpected(TextRange),
    TypeMismatch(TyView, TyView, TextRange),
    ArrayError(Box<ArrayErrView>, TextRange),
    /// Any other error.
    Other,
}

pub open spec fn array_err_view(e: ArrayInitError) -> ArrayErrView
    decreases e,
{
    match e {
        ArrayInitError::AssignArrayToNumber => ArrayErrView::AssignArrayToNumber,
        ArrayInitError::IndexOutOfBound => ArrayErrView::IndexOutOfBound,
        ArrayInitError::MisMatchIndexAndType => ArrayErrView::MisMatchIndexAndType,
        ArrayInitError::TypeMismatch { expected, found, range } => ArrayErrView::TypeMismatch(expected@, found@, range),
        ArrayInitError::InitialStructValue(inner) => ArrayErrView::InitialStructValue(Box::new(init_err_view(*inner))),
    }
}

pub open spec fn init_err_view(e: AnalyzeError) -> InitErrView
    decreases e,
{
    match e {
        AnalyzeError::StructUndefined { name, range } => InitErrView::StructUndefined(name@, range),
        AnalyzeError::StructInitFieldCountMismatch { expected, found, range } => InitErrView::StructInitFieldCountMismatch(
            expected as nat,
            found as nat,
            range,
        ),
        AnalyzeError::ConstantExprExpected { range } => InitErrView::ConstantExprExpected(range),
        AnalyzeError::TypeMismatch { expected, found, range } => InitErrView::TypeMismatch(expected@, found@, range),
        AnalyzeError::ArrayError { message, range } => InitErrView::ArrayError(Box::new(array_err_view(*message)), range),
        _ => InitErrView::Other,
    }
}

/// Whether a type takes a single expression as its initialiser.
pub open spec fn scalar_init(t: TyView) -> bool {
    match t {
        TyView::I32 | TyView::I8 | TyView::U8 | TyView::U32 | TyView::I64 | TyView::U64 | TyView::Bool | TyView::F32
        | TyView::Pointer { .. } => true,
        _ => false,
    }
}

/// The value recorded at `k`, if any.
pub open spec fn value_in(st: Tables, k: TextRange) -> Option<ValueView> {
    if st.values.contains_key(k) {
        Some(st.values[k])
    } else {
        None
    }
}

/// The element of type `ty` that the initialisers of `p` give from position
/// `pos` on: the new tables, and the element, the position after it and
/// whether everything so far (`c`) is constant; or the error.
pub open spec fn sbuild(m: &Module, st: Tables, ty: TyView, p: InitValNode, pos: int, c: bool) -> (Tables, Result<
    (ArrayTreeView, int, bool),
    ArrayErrView,
>)
    decreases p, 1int, ty, 0int,
{
    match ty {
        TyView::Struct { id, .. } => if 0 <= pos < p.inits.len() {
            proof {
                broadcast use vstd::std_specs::vec::axiom_vec_index_decreases;
            }
            let u = p.inits[pos];
            let (st1, r) = sstruct(m, st, id, u);
            match r {
                Err(e) => (st1, Err(ArrayErrView::InitialStructValue(Box::new(e)))),
                Ok(v) => {
                    let st2 = match v {
                        Some(x) => Tables { values: st1.values.insert(u.range, x), ..st1 },
                        None => st1,
                    };
                    (
                        st2,
                        Ok(
                            (
                                ArrayTreeView::Val(ArrayTreeValue::Struct { struct_id: id, init_list: u.range }),
                                pos,
                                c && v is Some,
                            ),
                        ),
                    )
                },
            }
        } else {
            (st, Err(ArrayErrView::MisMatchIndexAndType))
        },
        TyView::Array(inner, count) => match count {
            None => (st, Err(ArrayErrView::MisMatchIndexAndType)),
            Some(n) => {
                let (st1, r) = schildren(m, st, *inner, p, pos, n as int, Seq::empty(), c);
                match r {
                    Err(e) => (st1, Err(e)),
                    Ok((kids, pos1, c1)) => (st1, Ok((ArrayTreeView::Children(kids), pos1, c1))),
                }
            },
        },
        TyView::Const(inner) => sbuild(m, st, *inner, p, pos, c),
        TyView::Void => (st, Err(ArrayErrView::MisMatchIndexAndType)),
        _ => if 0 <= pos < p.inits.len() {
            let u = p.inits[pos];
            match u.expr {
                Some(er) => match type_at(m.type_table@, u.range) {
                    Some(et) => if !assignable(ty, et) {
                        (st, Err(ArrayErrView::TypeMismatch(ty, et, u.trimmed)))
                    } else {
                        (st, Ok((ArrayTreeView::Val(ArrayTreeValue::Expr(er)), pos + 1, c && st.values.contains_key(u.range))))
                    },
                    None => (st, Ok((ArrayTreeView::Val(ArrayTreeValue::Expr(er)), pos + 1, c && st.values.contains_key(u.range)))),
                },
                None => (st, Err(ArrayErrView::AssignArrayToNumber)),
            }
        } else {
            (st, Err(ArrayErrView::MisMatchIndexAndType))
        },
    }
}

/// Up to `rem` more elements of type `inner` after `acc`, from position `pos`
/// of the initialisers of `p`.
pub open spec fn schildren(
    m: &Module,
    st: Tables,
    inner: TyView,
    p: InitValNode,
    pos: int,
    rem: int,
    acc: Seq<ArrayTreeView>,
    c: bool,
) -> (Tables, Result<(Seq<ArrayTreeView>, int, bool), ArrayErrView>)
    decreases p, 1int, inner, if rem > 0 {
        rem
    } else {
        0
    },
{
    if rem <= 0 || !(0 <= pos < p.inits.len()) {
        (st, Ok((acc, pos, c)))
    } else {
        proof {
            broadcast use vstd::std_specs::vec::axiom_vec_index_decreases;
        }
        let u = p.inits[pos];
        if u.inits.len() > 0 {
            let (st1, r) = if array_type(inner) {
                sbuild(m, st, inner, u, 0, c)
            } else {
                sbuild(m, st, inner, p, pos, c)
            };
            match r {
                Err(e) => (st1, Err(e)),
                Ok((t, _, c1)) => schildren(m, st1, inner, p, pos + 1, rem - 1, acc.push(t), c1),
            }
        } else if u.expr is Some {
            let (st1, r) = sbuild(m, st, inner, p, pos, c);
            match r {
                Err(e) => (st1, Err(e)),
                Ok((t, pos1, c1)) => schildren(m, st1, inner, p, pos1, rem - 1, acc.push(t), c1),
            }
        } else if array_type(inner) {
            schildren(m, st, inner, p, pos + 1, rem - 1, acc.push(ArrayTreeView::Val(ArrayTreeValue::Empty)), c)
        } else {
            (st, Err(ArrayErrView::AssignArrayToNumber))
        }
    }
}

/// The tree that the initialiser `init` gives an array of type `ty`, and
/// whether all of its elements are constant.
pub open spec fn snew(m: &Module, st: Tables, ty: TyView, init: InitValNode) -> (Tables, Result<(ArrayTreeView, bool), ArrayErrView>)
    decreases init, 2int, ty, 0int,
{
    if init.inits.len() == 0 {
        (st, Ok((ArrayTreeView::Val(ArrayTreeValue::Empty), true)))
    } else {
        let (st1, r) = sbuild(m, st, ty, init, 0, true);
        match r {
            Err(e) => (st1, Err(e)),
            Ok((t, _, c)) => (st1, Ok((t, c))),
        }
    }
}

/// The struct value that the initialiser list `u` gives the struct `id`
/// (`None` when a field is not constant), or the error.
pub open spec fn sstruct(m: &Module, st: Tables, id: StructID, u: InitValNode) -> (Tables, Result<Option<ValueView>, InitErrView>)
    decreases u, 3int, TyView::Void, 0int,
{
    match m.struct_at(id) {
        None => (st, Err(InitErrView::StructUndefined("<uname>"@, u.trimmed))),
        Some(s) => if u.inits.len() != s.fields.len() {
            (st, Err(InitErrView::StructInitFieldCountMismatch(s.fields.len(), u.inits.len() as nat, u.trimmed)))
        } else {
            let (st1, r) = sfields(m, st, s, u, 0, Seq::empty(), true);
            match r {
                Err(e) => (st1, Err(e)),
                Ok((vals, all)) => (st1, Ok(if all { Some(ValueView::Struct(id, vals)) } else { None })),
            }
        },
    }
}

/// The fields of `s` from `k` on, initialised by the initialisers of `u`.
pub open spec fn sfields(
    m: &Module,
    st: Tables,
    s: StructView,
    u: InitValNode,
    k: int,
    vals: Seq<ValueView>,
    all: bool,
) -> (Tables, Result<(Seq<ValueView>, bool), InitErrView>)
    decreases u, 2int, TyView::Void, if k < u.inits.len() {
        u.inits.len() - k
    } else {
        0
    },
{
    if !(0 <= k < u.inits.len()) || k >= s.fields.len() {
        (st, Ok((vals, all)))
    } else {
        proof {
            broadcast use vstd::std_specs::vec::axiom_vec_index_decreases;
        }
        let fty = m.field_at(s.fields[k])->0.ty;
        let (st1, r) = sfield(m, st, fty, u.inits[k]);
        match r {
            Err(e) => (st1, Err(e)),
            Ok(v) => {
                let (vals2, all2) = if v is Some && all {
                    (vals.push(v->0), true)
                } else {
                    (vals, false)
                };
                sfields(m, st1, s, u, k + 1, vals2, all2)
            },
        }
    }
}

/// The value that the initialiser `init` gives a field of type `fty`.
pub open spec fn sfield(m: &Module, st: Tables, fty: TyView, init: InitValNode) -> (Tables, Result<Option<ValueView>, InitErrView>)
    decreases init, 4int, fty, 0int,
{
    let inner = unconst(fty);
    match inner {
        TyView::Array(..) => {
            let (st1, r) = snew(m, st, fty, init);
            match r {
                Err(e) => (st1, Err(InitErrView::ArrayError(Box::new(e), init.range))),
                Ok((tree, c)) => {
                    let st2 = Tables { arrays: st1.arrays.insert(init.range, tree), ..st1 };
                    if !c {
                        (st2, Ok(None))
                    } else {
                        (
                            Tables { values: st2.values.insert(init.range, ValueView::Array(tree)), ..st2 },
                            Ok(Some(ValueView::Array(tree))),
                        )
                    }
                },
            }
        },
        TyView::Struct { id, .. } => {
            let (st1, r) = sstruct(m, st, id, init);
            match r {
                Ok(Some(v)) => (Tables { values: st1.values.insert(init.range, v), ..st1 }, r),
                _ => (st1, r),
            }
        },
        _ => match init.expr {
            None => (st, Err(InitErrView::ConstantExprExpected(init.trimmed))),
            Some(er) => match type_at(m.type_table@, er) {
                Some(et) => if !assignable(fty, et) {
                    (st, Err(InitErrView::TypeMismatch(fty, et, init.trimmed)))
                } else {
                    (st, Ok(value_in(st, er)))
                },
                None => (st, Ok(value_in(st, er))),
            },
        },
    }
}


/// Whether a field is known, with a type that is neither `void` nor doubly `const`.
pub open spec fn field_ready(f: Option<crate::module::FieldView>) -> bool {
    match f {
        Some(f) => !(unconst(f.ty) is Void) && !(unconst(f.ty) is Const),
        None => false,
    }
}

/// Whether every field of every struct that `m` knows is in its field
/// table, with a type that is neither `void` nor doubly `const`.
pub open spec fn fields_ready(m: &Module) -> bool {
    forall|id: StructID|
        #[trigger] m.struct_at(id) matches Some(s) ==> forall|k: int|
            0 <= k < s.fields.len() ==> field_ready(#[trigger] m.field_at(s.fields[k]))
}

/// Whether `m` may stand for `a` as the context of an initialiser: they agree
/// on everything but the tables of values and array initialisers.
pub open spec fn same_context(m: &Module, a: &Module) -> bool {
    &&& same_symbols(m, a)
    &&& m.type_table == a.type_table
    &&& m.semantic_errors == a.semantic_errors
    &&& m.overflowing_literals == a.overflowing_literals
}

fn put_value(m: &mut Module, k: TextRange, v: Value)
    ensures
        same_context(old(m), final(m)),
        tables_of(final(m)) == (Tables { values: tables_of(old(m)).values.insert(k, v@), ..tables_of(old(m)) }),
{
    let ghost vv = v@;
    bind_range(&mut m.value_table, k, v);
    proof {
        assert(values_of(m.value_table@) =~= values_of(old(m).value_table@).insert(k, vv));
    }
}

fn put_array(m: &mut Module, k: TextRange, t: ArrayTree)
    ensures
        same_context(old(m), final(m)),
        tables_of(final(m)) == (Tables { arrays: tables_of(old(m)).arrays.insert(k, t@), ..tables_of(old(m)) }),
{
    let ghost tv = t@;
    bind_range(&mut m.expand_array, k, t);
    proof {
        assert(arrays_of(m.expand_array@) =~= arrays_of(old(m).expand_array@).insert(k, tv));
    }
}

/// The views of a list of trees.
pub open spec fn trees_view(ts: Seq<ArrayTree>) -> Seq<ArrayTreeView> {
    ts.map_values(|t: ArrayTree| t@)
}

/// The views of a list of values.
pub open spec fn values_view(vs: Seq<Value>) -> Seq<ValueView> {
    vs.map_values(|v: Value| v@)
}

impl ArrayTree {
    #[verifier::loop_isolation(false)]
    fn build(
        m: &mut Module,
        ty: &Ty,
        p: &InitValNode,
        pos: &mut usize,
        is_const: &mut bool,
        Ghost(m0): Ghost<Module>,
    ) -> (r: Result<ArrayTree, ArrayInitError>)
        requires
            same_context(&m0, old(m)),
            fields_ready(&m0),
            *old(pos) <= p.inits.len(),
        ensures
            same_context(&m0, final(m)),
            *final(pos) <= p.inits.len(),
            ({
                let (st, sr) = sbuild(&m0, tables_of(old(m)), ty@, *p, *old(pos) as int, *old(is_const));
                &&& tables_of(final(m)) == st
                &&& match r {
                    Ok(t) => sr == Ok::<(ArrayTreeView, int, bool), ArrayErrView>((t@, *final(pos) as int, *final(is_const))),
                    Err(e) => sr == Err::<(ArrayTreeView, int, bool), ArrayErrView>(array_err_view(e)),
                }
            }),
        decreases p, 1int, *ty, 0int,
    {
        proof {
            reveal_with_fuel(ty_view, 2);
        }
        match ty {
            Ty::Struct { id, .. } => {
                if *pos < p.inits.len() {
                    let u = &p.inits[*pos];
                    match m.process_struct_init(*id, u, Ghost(m0)) {
                        Err(e) => Err(ArrayInitError::InitialStructValue(Box::new(e))),
                        Ok(v) => {
                            *is_const = *is_const && v.is_some();
                            if let Some(x) = v {
                                put_value(m, u.range, x);
                            }
                            Ok(ArrayTree::Val(ArrayTreeValue::Struct { struct_id: *id, init_list: u.range }))
                        },
                    }
                } else {
                    Err(ArrayInitError::MisMatchIndexAndType)
                }
            },
            Ty::Array(inner, count) => {
                let n = match count {
                    Some(n) => *n,
                    None => return Err(ArrayInitError::MisMatchIndexAndType),
                };
                let ghost t0 = tables_of(m);
                let ghost pos0 = *pos as int;
                let ghost c0 = *is_const;
                let mut children: Vec<ArrayTree> = Vec::new();
                let mut k: i32 = 0;
                assert(trees_view(children@) =~= Seq::<ArrayTreeView>::empty());
                while k < n
                    invariant
                        0 <= k,
                        k <= n || n <= 0,
                        same_context(&m0, m),
                        fields_ready(&m0),
                        *pos <= p.inits.len(),
                        schildren(&m0, t0, inner@, *p, pos0, n as int, Seq::empty(), c0) == schildren(
                            &m0,
                            tables_of(m),
                            inner@,
                            *p,
                            *pos as int,
                            n - k,
                            trees_view(children@),
                            *is_const,
                        ),
                    decreases n - k,
                {
                    if *pos >= p.inits.len() {
                        break;
                    }
                    let u = &p.inits[*pos];
                    let ghost acc = trees_view(children@);
                    if u.inits.len() > 0 {
                        let sibling = *pos + 1;
                        let subtree = if inner.is_array() {
                            let mut first: usize = 0;
                            match Self::build(m, inner, u, &mut first, is_const, Ghost(m0)) {
                                Ok(t) => t,
                                Err(e) => return Err(e),
                            }
                        } else {
                            match Self::build(m, inner, p, pos, is_const, Ghost(m0)) {
                                Ok(t) => t,
                                Err(e) => return Err(e),
                            }
                        };
                        children.push(subtree);
                        *pos = sibling;
                        proof {
                            assert(trees_view(children@) =~= acc.push(children@.last()@));
                        }
                    } else if u.expr.is_some() {
                        let subtree = match Self::build(m, inner, p, pos, is_const, Ghost(m0)) {
                            Ok(t) => t,
                            Err(e) => return Err(e),
                        };
                        children.push(subtree);
                        proof {
                            assert(trees_view(children@) =~= acc.push(children@.last()@));
                        }
                    } else if inner.is_array() {
                        children.push(ArrayTree::Val(ArrayTreeValue::Empty));
                        *pos = *pos + 1;
                        proof {
                            assert(trees_view(children@) =~= acc.push(ArrayTreeView::Val(ArrayTreeValue::Empty)));
                        }
                    } else {
                        return Err(ArrayInitError::AssignArrayToNumber);
                    }
                    k += 1;
                }
                proof {
                    assert(trees_view(children@) == tree_view(ArrayTree::Children(children))->Children_0) by {
                        assert(trees_view(children@) =~= tree_view(ArrayTree::Children(children))->Children_0);
                    }
                }
                Ok(ArrayTree::Children(children))
            },
            Ty::Const(inner) => Self::build(m, inner, p, pos, is_const, Ghost(m0)),
            Ty::Void => Err(ArrayInitError::MisMatchIndexAndType),
            _ => {
                if *pos >= p.inits.len() {
                    return Err(ArrayInitError::MisMatchIndexAndType);
                }
                let u = &p.inits[*pos];
                let er = match u.expr {
                    Some(er) => er,
                    None => return Err(ArrayInitError::AssignArrayToNumber),
                };
                if let Some(et) = m.get_expr_type(u.range) {
                    if !ty.assign_to_me_is_ok(et) {
                        return Err(ArrayInitError::TypeMismatch { expected: ty.clone(), found: et.clone(), range: u.trimmed });
                    }
                }
                *is_const = *is_const && m.is_compile_time_constant(u.range);
                *pos = *pos + 1;
                Ok(ArrayTree::Val(ArrayTreeValue::Expr(er)))
            },
        }
    }

    fn new_in(m: &mut Module, ty: &Ty, init: &InitValNode, Ghost(m0): Ghost<Module>) -> (r: Result<(ArrayTree, bool), ArrayInitError>)
        requires
            same_context(&m0, old(m)),
            fields_ready(&m0),
        ensures
            same_context(&m0, final(m)),
            ({
                let (st, sr) = snew(&m0, tables_of(old(m)), ty@, *init);
                &&& tables_of(final(m)) == st
                &&& match r {
                    Ok((t, c)) => sr == Ok::<(ArrayTreeView, bool), ArrayErrView>((t@, c)),
                    Err(e) => sr == Err::<(ArrayTreeView, bool), ArrayErrView>(array_err_view(e)),
                }
            }),
        decreases init, 2int, *ty, 0int,
    {
        if init.inits.len() == 0 {
            return Ok((ArrayTree::Val(ArrayTreeValue::Empty), true));
        }
        let mut pos: usize = 0;
        let mut c = true;
        match Self::build(m, ty, init, &mut pos, &mut c, Ghost(m0)) {
            Ok(t) => Ok((t, c)),
            Err(e) => Err(e),
        }
    }

    /// The element tree that the initialiser `init` gives an array of type
    /// `ty`, and whether all of its elements are constant, as `snew` says;
    /// the constant values of struct elements are recorded on the way.
    pub fn new(m: &mut Module, ty: &Ty, init: &InitValNode) -> (r: Result<(ArrayTree, bool), ArrayInitError>)
        requires
            fields_ready(old(m)),
        ensures
            same_context(old(m), final(m)),
            ({
                let (st, sr) = snew(old(m), tables_of(old(m)), ty@, *init);
                &&& tables_of(final(m)) == st
                &&& match r {
                    Ok((t, c)) => sr == Ok::<(ArrayTreeView, bool), ArrayErrView>((t@, c)),
                    Err(e) => sr == Err::<(ArrayTreeView, bool), ArrayErrView>(array_err_view(e)),
                }
            }),
    {
        let ghost m0 = *m;
        Self::new_in(m, ty, init, Ghost(m0))
    }
}

impl Module {
    #[verifier::loop_isolation(false)]
    fn process_struct_init(&mut self, id: StructID, u: &InitValNode, Ghost(m0): Ghost<Module>) -> (r: Result<
        Option<Value>,
        AnalyzeError,
    >)
        requires
            same_context(&m0, old(self)),
            fields_ready(&m0),
        ensures
            same_context(&m0, final(self)),
            ({
                let (st, sr) = sstruct(&m0, tables_of(old(self)), id, *u);
                &&& tables_of(final(self)) == st
                &&& match r {
                    Ok(Some(v)) => sr == Ok::<Option<ValueView>, InitErrView>(Some(v@)),
                    Ok(None) => sr == Ok::<Option<ValueView>, InitErrView>(None),
                    Err(e) => sr == Err::<Option<ValueView>, InitErrView>(init_err_view(e)),
                }
            }),
        decreases u, 3int, Ty::Void, 0int,
    {
        let s = match self.get_struct_by_id(id) {
            Some(s) => s,
            None => {
                proof {
                    reveal_strlit("<uname>");
                }
                return Err(AnalyzeError::StructUndefined { name: "<uname>".to_string(), range: u.trimmed });
            },
        };
        if u.inits.len() != s.fields.len() {
            return Err(
                AnalyzeError::StructInitFieldCountMismatch {
                    expected: s.fields.len(),
                    found: u.inits.len(),
                    range: u.trimmed,
                },
            );
        }
        let mut tys: Vec<Ty> = Vec::new();
        let mut j: usize = 0;
        while j < s.fields.len()
            invariant
                j <= s.fields.len(),
                same_context(&m0, self),
                fields_ready(&m0),
                m0.struct_at(id) == Some(s@),
                tys@.len() == j,
                forall|i: int| 0 <= i < j ==> (#[trigger] tys@[i])@ == m0.field_at(s.fields@[i])->0.ty,
            decreases s.fields.len() - j,
        {
            let f = match self.get_field_by_id(s.fields[j]) {
                Some(f) => f,
                None => {
                    proof {
                        assert(m0.field_at(s@.fields[j as int]) is Some);
                    }
                    return Err(AnalyzeError::ConstantExprExpected { range: u.trimmed });
                },
            };
            tys.push(f.ty);
            j += 1;
        }
        let ghost t0 = tables_of(self);
        let mut vals: Vec<Value> = Vec::new();
        let mut all = true;
        let mut k: usize = 0;
        assert(values_view(vals@) =~= Seq::<ValueView>::empty());
        while k < u.inits.len()
            invariant
                k <= u.inits.len(),
                u.inits.len() == s.fields.len(),
                tys@.len() == s.fields.len(),
                same_context(&m0, self),
                fields_ready(&m0),
                m0.struct_at(id) == Some(s@),
                forall|i: int| 0 <= i < tys@.len() ==> (#[trigger] tys@[i])@ == m0.field_at(s.fields@[i])->0.ty,
                sfields(&m0, t0, s@, *u, 0, Seq::empty(), true) == sfields(
                    &m0,
                    tables_of(self),
                    s@,
                    *u,
                    k as int,
                    values_view(vals@),
                    all,
                ),
            decreases u.inits.len() - k,
        {
            let ghost before = values_view(vals@);
            let v = match self.process_field_init_value(&tys[k], &u.inits[k], Ghost(m0)) {
                Ok(v) => v,
                Err(e) => return Err(e),
            };
            match v {
                Some(x) => {
                    if all {
                        vals.push(x);
                        proof {
                            assert(values_view(vals@) =~= before.push(vals@.last()@));
                        }
                    } else {
                        all = false;
                    }
                },
                None => {
                    all = false;
                },
            }
            k += 1;
        }
        if all {
            let r = Value::Struct(id, vals);
            proof {
                reveal_with_fuel(crate::value::value_view, 2);
                assert(r@ == ValueView::Struct(id, values_view(r->Struct_1@))) by {
                    assert(r@->Struct_1 =~= values_view(r->Struct_1@));
                }
            }
            Ok(Some(r))
        } else {
            Ok(None)
        }
    }

    fn process_field_init_value(&mut self, fty: &Ty, init: &InitValNode, Ghost(m0): Ghost<Module>) -> (r: Result<
        Option<Value>,
        AnalyzeError,
    >)
        requires
            same_context(&m0, old(self)),
            fields_ready(&m0),
        ensures
            same_context(&m0, final(self)),
            ({
                let (st, sr) = sfield(&m0, tables_of(old(self)), fty@, *init);
                &&& tables_of(final(self)) == st
                &&& match r {
                    Ok(Some(v)) => sr == Ok::<Option<ValueView>, InitErrView>(Some(v@)),
                    Ok(None) => sr == Ok::<Option<ValueView>, InitErrView>(None),
                    Err(e) => sr == Err::<Option<ValueView>, InitErrView>(init_err_view(e)),
                }
            }),
        decreases init, 4int, *fty, 0int,
    {
        proof {
            reveal_with_fuel(ty_view, 2);
        }
        let inner = fty.unwrap_const();
        match inner {
            Ty::Array(..) => {
                match ArrayTree::new_in(self, fty, init, Ghost(m0)) {
                    Err(e) => Err(AnalyzeError::ArrayError { message: Box::new(e), range: init.range }),
                    Ok((tree, c)) => {
                        put_array(self, init.range, tree.duplicate());
                        if !c {
                            Ok(None)
                        } else {
                            let v = Value::Array(tree.duplicate());
                            put_value(self, init.range, v);
                            Ok(Some(Value::Array(tree)))
                        }
                    },
                }
            },
            Ty::Struct { id, .. } => {
                let r = self.process_struct_init(id, init, Ghost(m0));
                match r {
                    Ok(Some(v)) => {
                        put_value(self, init.range, v.clone());
                        Ok(Some(v))
                    },
                    _ => r,
                }
            },
            _ => {
                let er = match init.expr {
                    Some(er) => er,
                    None => return Err(AnalyzeError::ConstantExprExpected { range: init.trimmed }),
                };
                if let Some(et) = self.get_expr_type(er) {
                    if !fty.assign_to_me_is_ok(et) {
                        return Err(AnalyzeError::TypeMismatch { expected: fty.clone(), found: et.clone(), range: init.trimmed });
                    }
                }
                match self.get_value_by_range(er) {
                    Some(v) => Ok(Some(v.clone())),
                    None => Ok(None),
                }
            },
        }
    }

    /// The value that the initialiser list `init` gives the struct `id`
    /// (`None` when a field is not constant), or the error, as `sstruct`
    /// says; the values and element trees of nested initialisers are
    /// recorded on the way.
    pub fn process_struct_init_value(&mut self, struct_id: StructID, init: &InitValNode) -> (r: Result<
        Option<Value>,
        AnalyzeError,
    >)
        requires
            fields_ready(old(self)),
        ensures
            same_context(old(self), final(self)),
            ({
                let (st, sr) = sstruct(old(self), tables_of(old(self)), struct_id, *init);
                &&& tables_of(final(self)) == st
                &&& match r {
                    Ok(Some(v)) => sr == Ok::<Option<ValueView>, InitErrView>(Some(v@)),
                    Ok(None) => sr == Ok::<Option<ValueView>, InitErrView>(None),
                    Err(e) => sr == Err::<Option<ValueView>, InitErrView>(init_err_view(e)),
                }
            }),
    {
        let ghost m0 = *self;
        self.process_struct_init(struct_id, init, Ghost(m0))
    }
}

} // verus!
