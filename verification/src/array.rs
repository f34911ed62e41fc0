//! Array initialisers: the tree of values that a braced initialiser fills an
//! array with, and the lookup of one element in it.

use vstd::prelude::*;

use crate::module::{at_range, position_at_range, StructID, TextRange};
use crate::error::AnalyzeError;
use crate::value::Value;
use crate::types::Ty;

verus! {

/// What one element of an array is initialised with.
#[derive(Debug, Clone, Copy, PartialEq, Eq, Structural)]
pub enum ArrayTreeValue {
    /// The expression at this range.
    Expr(TextRange),
    /// A struct, from the initialiser list at this range.
    Struct { struct_id: StructID, init_list: TextRange },
    /// Nothing given: the element is zero.
    Empty,
}

/// The source range whose constant value an element takes, if any.
pub open spec fn leaf_source(v: ArrayTreeValue) -> Option<TextRange> {
    match v {
        ArrayTreeValue::Expr(r) => Some(r),
        ArrayTreeValue::Struct { init_list, .. } => Some(init_list),
        ArrayTreeValue::Empty => None,
    }
}

/// The constant value of an element in `value_table`, if it has one.
pub open spec fn leaf_value(v: ArrayTreeValue, value_table: Seq<(TextRange, Value)>) -> Option<Value> {
    match leaf_source(v) {
        Some(r) => at_range(value_table, r),
        None => None,
    }
}

impl ArrayTreeValue {
    /// The constant value of the element: that of its expression or of its
    /// struct initialiser list.
    pub fn get_const_value<'a>(&self, value_table: &'a Vec<(TextRange, Value)>) -> (r: Option<&'a Value>)
        ensures
            r matches Some(v) ==> leaf_value(*self, value_table@) == Some(*v),
            r is None ==> leaf_value(*self, value_table@) is None,
    {
        let key = match self {
            ArrayTreeValue::Expr(r) => *r,
            ArrayTreeValue::Struct { init_list, .. } => *init_list,
            ArrayTreeValue::Empty => return None,
        };
        match position_at_range(value_table, key) {
            Some(i) => Some(&value_table[i].1),
            None => None,
        }
    }
}

/// The initialiser of an array, one level of nesting per dimension.
#[derive(Debug)]
pub enum ArrayTree {
    Children(Vec<ArrayTree>),
    Val(ArrayTreeValue),
}

/// An initialiser tree as a mathematical value.
pub enum ArrayTreeView {
    Children(Seq<ArrayTreeView>),
    Val(ArrayTreeValue),
}

/// The mathematical value of an initialiser tree.
pub open spec fn tree_view(t: ArrayTree) -> ArrayTreeView
    decreases t,
{
    match t {
        ArrayTree::Val(v) => ArrayTreeView::Val(v),
        ArrayTree::Children(kids) => ArrayTreeView::Children(
            Seq::new(
                kids.len() as nat,
                |i: int|
                    {
                        if 0 <= i < kids.len() {
                            proof {
                                broadcast use vstd::std_specs::vec::axiom_vec_index_decreases;

                            }
                            tree_view(kids[i])
                        } else {
                            ArrayTreeView::Val(ArrayTreeValue::Empty)
                        }
                    },
            ),
        ),
    }
}

impl View for ArrayTree {
    type V = ArrayTreeView;

    open spec fn view(&self) -> ArrayTreeView {
        tree_view(*self)
    }
}

/// Why an array initialiser does not fit its array.
#[derive(Debug)]
pub enum ArrayInitError {
    /// A braced list where one value is expected.
    AssignArrayToNumber,
    /// More initialisers than elements.
    IndexOutOfBound,
    /// The nesting of the initialiser and the array's dimensions disagree.
    MisMatchIndexAndType,
    /// An element of the wrong type.
    TypeMismatch { expected: Ty, found: Ty, range: TextRange },
    /// A struct element whose initialiser list is wrong.
    InitialStructValue(Box<AnalyzeError>),
}

/// The element of `t` at the position `indices`, as `get_leaf` finds it.
pub open spec fn leaf_at(t: ArrayTreeView, indices: Seq<i32>) -> Option<ArrayTreeValue>
    decreases indices.len(),
{
    if indices.len() == 0 {
        match t {
            ArrayTreeView::Val(v) => Some(v),
            ArrayTreeView::Children(_) => None,
        }
    } else {
        match t {
            ArrayTreeView::Children(kids) => {
                let i = indices[0] as int;
                if 0 <= i < kids.len() {
                    leaf_at(kids[i], indices.drop_first())
                } else {
                    Some(ArrayTreeValue::Empty)
                }
            },
            ArrayTreeView::Val(ArrayTreeValue::Empty) => Some(ArrayTreeValue::Empty),
            ArrayTreeView::Val(_) => None,
        }
    }
}

impl ArrayTree {
    /// A copy of the tree.
    pub fn duplicate(&self) -> (r: ArrayTree)
        ensures
            r@ == self@,
        decreases self,
    {
        match self {
            ArrayTree::Val(v) => ArrayTree::Val(*v),
            ArrayTree::Children(kids) => {
                let mut out: Vec<ArrayTree> = Vec::new();
                let mut i: usize = 0;
                while i < kids.len()
                    invariant
                        *self is Children,
                        (*self)->Children_0 == *kids,
                        i <= kids.len(),
                        out.len() == i,
                        forall|j: int| 0 <= j < i ==> tree_view(#[trigger] out[j]) == tree_view(kids[j]),
                    decreases kids.len() - i,
                {
                    proof {
                        broadcast use vstd::std_specs::vec::axiom_vec_index_decreases;

                        assert(decreases_to!(*self => (*self)->Children_0));
                        assert(decreases_to!((*self)->Children_0 => (*self)->Children_0[i as int]));
                    }
                    let c = kids[i].duplicate();
                    out.push(c);
                    i += 1;
                }
                let r = ArrayTree::Children(out);
                assert(tree_view(r)->Children_0 =~= tree_view(*self)->Children_0);
                r
            },
        }
    }

    /// The element at the position `indices`: `Empty` where the initialiser
    /// leaves it out, an error where the nesting does not match.
    pub fn get_leaf(&self, indices: &[i32]) -> (r: Result<ArrayTreeValue, ArrayInitError>)
        ensures
            r matches Ok(v) ==> leaf_at(self@, indices@) == Some(v),
            r is Err ==> leaf_at(self@, indices@) is None,
            r matches Err(e) ==> e is MisMatchIndexAndType,
    {
        let mut u = self;
        let mut k: usize = 0;
        assert(indices@.subrange(0, indices@.len() as int) =~= indices@);
        while k < indices.len()
            invariant
                k <= indices.len(),
                leaf_at(self@, indices@) == leaf_at(u@, indices@.subrange(k as int, indices@.len() as int)),
            decreases indices.len() - k,
        {
            let i = indices[k];
            proof {
                let rest = indices@.subrange(k as int, indices@.len() as int);
                assert(rest[0] == i);
                assert(rest.drop_first() =~= indices@.subrange(k + 1, indices@.len() as int));
            }
            match u {
                ArrayTree::Children(children) => {
                    if i < 0 || i as usize >= children.len() {
                        return Ok(ArrayTreeValue::Empty);
                    }
                    u = &children[i as usize];
                },
                ArrayTree::Val(ArrayTreeValue::Empty) => {
                    return Ok(ArrayTreeValue::Empty);
                },
                _ => {
                    return Err(ArrayInitError::MisMatchIndexAndType);
                },
            }
            k += 1;
        }
        proof {
            assert(indices@.subrange(k as int, indices@.len() as int).len() == 0);
        }
        match u {
            ArrayTree::Val(v) => Ok(*v),
            _ => Err(ArrayInitError::MisMatchIndexAndType),
        }
    }
}

} // verus!
