//! A syntax tree as plain data, and the typed views of the nodes that the
//! analysis and the code generator ask questions of.

use vstd::prelude::*;

use crate::syntax_kind::{trivia_kind, SyntaxKind};

verus! {

/// A token of a syntax tree: its kind and its text.
#[derive(Debug)]
pub struct SyntaxToken {
    pub kind: SyntaxKind,
    pub text: String,
}

/// A node of a syntax tree: its kind and its children, in source order.
#[derive(Debug)]
pub struct SyntaxNode {
    pub kind: SyntaxKind,
    pub children: Vec<SyntaxElement>,
}

/// A child of a node: a node or a token.
#[derive(Debug)]
pub enum SyntaxElement {
    Node(SyntaxNode),
    Token(SyntaxToken),
}

/// Whether `e` is a token of kind `k`.
pub open spec fn token_of(e: SyntaxElement, k: SyntaxKind) -> bool {
    e matches SyntaxElement::Token(t) && t.kind == k
}

/// Whether `e` is a node of kind `k`.
pub open spec fn node_of(e: SyntaxElement, k: SyntaxKind) -> bool {
    e matches SyntaxElement::Node(c) && c.kind == k
}

/// Whether some child of `n` is a token of kind `k`.
pub open spec fn has_token(n: SyntaxNode, k: SyntaxKind) -> bool {
    exists|i: int| 0 <= i < n.children@.len() && #[trigger] token_of(n.children@[i], k)
}

/// Whether some child of `n` is a node of kind `k`.
pub open spec fn has_node(n: SyntaxNode, k: SyntaxKind) -> bool {
    exists|i: int| 0 <= i < n.children@.len() && #[trigger] node_of(n.children@[i], k)
}

/// The kinds of the children of `cs` that are tokens other than whitespace and comments.
pub open spec fn significant_kinds(cs: Seq<SyntaxElement>) -> Seq<SyntaxKind>
    decreases cs.len(),
{
    if cs.len() == 0 {
        Seq::empty()
    } else {
        let rest = significant_kinds(cs.drop_last());
        match cs.last() {
            SyntaxElement::Token(t) => if trivia_kind(t.kind) {
                rest
            } else {
                rest.push(t.kind)
            },
            SyntaxElement::Node(_) => rest,
        }
    }
}

/// The mutability of each pointer level, read from the pointer's tokens:
/// each token starts a level, which is immutable when `const` follows it
/// (and the `const` is consumed with it), and mutable otherwise.
pub open spec fn stars_of(ks: Seq<SyntaxKind>) -> Seq<bool>
    decreases ks.len(),
{
    if ks.len() == 0 {
        Seq::empty()
    } else if ks.len() >= 2 && ks[1] == SyntaxKind::CONST_KW {
        seq![false] + stars_of(ks.skip(2))
    } else {
        seq![true] + stars_of(ks.skip(1))
    }
}

/// The position of the first child of `cs` that is a token of kind `k`.
pub open spec fn first_token(cs: Seq<SyntaxElement>, k: SyntaxKind) -> Option<int>
    decreases cs.len(),
{
    if cs.len() == 0 {
        None
    } else if token_of(cs[0], k) {
        Some(0)
    } else {
        match first_token(cs.drop_first(), k) {
            Some(i) => Some(i + 1),
            None => None,
        }
    }
}

fn find_token(n: &SyntaxNode, k: SyntaxKind) -> (r: Option<usize>)
    ensures
        r matches Some(i) ==> first_token(n.children@, k) == Some(i as int) && i < n.children@.len(),
        r is None ==> first_token(n.children@, k) is None,
        r is Some <==> has_token(*n, k),
{
    let ghost cs = n.children@;
    let mut i: usize = 0;
    assert(cs.skip(0) =~= cs);
    while i < n.children.len()
        invariant
            cs == n.children@,
            i <= cs.len(),
            first_token(cs, k) == match first_token(cs.skip(i as int), k) {
                Some(j) => Some(j + i),
                None => None,
            },
            forall|j: int| 0 <= j < i ==> !#[trigger] token_of(cs[j], k),
        decreases cs.len() - i,
    {
        let found = match &n.children[i] {
            SyntaxElement::Token(t) => t.kind == k,
            SyntaxElement::Node(_) => false,
        };
        proof {
            assert(cs.skip(i as int)[0] == cs[i as int]);
        }
        if found {
            return Some(i);
        }
        assert(cs.skip(i as int).drop_first() =~= cs.skip(i + 1));
        i += 1;
    }
    None
}

fn find_node(n: &SyntaxNode, k: SyntaxKind) -> (r: bool)
    ensures
        r == has_node(*n, k),
{
    let mut i: usize = 0;
    while i < n.children.len()
        invariant
            i <= n.children@.len(),
            forall|j: int| 0 <= j < i ==> !#[trigger] node_of(n.children@[j], k),
        decreases n.children@.len() - i,
    {
        let found = match &n.children[i] {
            SyntaxElement::Node(c) => c.kind == k,
            SyntaxElement::Token(_) => false,
        };
        if found {
            assert(node_of(n.children@[i as int], k));
            return true;
        }
        i += 1;
    }
    false
}

/// A declaration of variables: `[const] Type VarDef, ...;`.
#[derive(Debug)]
pub struct VarDecl {
    pub syntax: SyntaxNode,
}

/// An initial value: an expression or a braced list of initial values.
#[derive(Debug)]
pub struct InitVal {
    pub syntax: SyntaxNode,
}

/// A parameter of a function.
#[derive(Debug)]
pub struct FuncFParam {
    pub syntax: SyntaxNode,
}

/// The pointer part of a type: one or more `*`, each maybe followed by `const`.
#[derive(Debug)]
pub struct Pointer {
    pub syntax: SyntaxNode,
}

/// A name.
#[derive(Debug)]
pub struct Name {
    pub syntax: SyntaxNode,
}

impl VarDecl {
    /// Whether the declaration is `const`.
    pub fn is_const(&self) -> (r: bool)
        ensures
            r == has_token(self.syntax, SyntaxKind::CONST_KW),
    {
        find_token(&self.syntax, SyntaxKind::CONST_KW).is_some()
    }
}

impl InitVal {
    /// Whether the initial value is a braced list.
    pub fn is_list(&self) -> (r: bool)
        ensures
            r == has_node(self.syntax, SyntaxKind::INIT_VAL),
    {
        find_node(&self.syntax, SyntaxKind::INIT_VAL)
    }
}

impl FuncFParam {
    /// Whether the parameter is an array.
    pub fn is_array(&self) -> (r: bool)
        ensures
            r == has_token(self.syntax, SyntaxKind::L_BRACK),
    {
        find_token(&self.syntax, SyntaxKind::L_BRACK).is_some()
    }
}

impl Pointer {
    /// The mutability of each pointer level: `true` for a mutable pointer,
    /// `false` for an immutable one.
    pub fn stars(&self) -> (r: Vec<bool>)
        ensures
            r@ == stars_of(significant_kinds(self.syntax.children@)),
    {
        let ghost cs = self.syntax.children@;
        let mut ks: Vec<SyntaxKind> = Vec::new();
        let mut i: usize = 0;
        while i < self.syntax.children.len()
            invariant
                cs == self.syntax.children@,
                i <= cs.len(),
                ks@ == significant_kinds(cs.take(i as int)),
            decreases cs.len() - i,
        {
            proof {
                assert(cs.take(i + 1).drop_last() =~= cs.take(i as int));
            }
            match &self.syntax.children[i] {
                SyntaxElement::Token(t) => {
                    if !t.kind.is_trivia() {
                        ks.push(t.kind);
                    }
                },
                SyntaxElement::Node(_) => {},
            }
            i += 1;
        }
        assert(cs.take(cs.len() as int) =~= cs);
        let ghost all = ks@;
        let mut out: Vec<bool> = Vec::new();
        let mut j: usize = 0;
        assert(all.skip(0) =~= all);
        while j < ks.len()
            invariant
                all == ks@,
                j <= ks.len(),
                stars_of(all) == out@ + stars_of(all.skip(j as int)),
            decreases ks.len() - j,
        {
            if j + 1 < ks.len() && ks[j + 1] == SyntaxKind::CONST_KW {
                proof {
                    let rest = all.skip(j as int);
                    assert(rest[1] == all[j + 1]);
                    assert(rest.skip(2) =~= all.skip(j + 2));
                    assert(out@.push(false) + stars_of(all.skip(j + 2)) =~= out@ + (seq![false] + stars_of(all.skip(j + 2))));
                }
                out.push(false);
                j += 2;
            } else {
                proof {
                    let rest = all.skip(j as int);
                    assert(rest.skip(1) =~= all.skip(j + 1));
                    if rest.len() >= 2 {
                        assert(rest[1] == all[j + 1]);
                    }
                    assert(out@.push(true) + stars_of(all.skip(j + 1)) =~= out@ + (seq![true] + stars_of(all.skip(j + 1))));
                }
                out.push(true);
                j += 1;
            }
        }
        proof {
            assert(all.skip(j as int) =~= Seq::<SyntaxKind>::empty());
            assert(out@ + Seq::<bool>::empty() =~= out@);
        }
        out
    }
}

impl Name {
    /// The identifier token of the name.
    pub fn ident(&self) -> (r: Option<&SyntaxToken>)
        ensures
            r matches Some(t) ==> first_token(self.syntax.children@, SyntaxKind::IDENT) matches Some(i)
                && self.syntax.children@[i] == SyntaxElement::Token(*t),
            r is None ==> first_token(self.syntax.children@, SyntaxKind::IDENT) is None,
    {
        match find_token(&self.syntax, SyntaxKind::IDENT) {
            Some(i) => match &self.syntax.children[i] {
                SyntaxElement::Token(t) => Some(t),
                SyntaxElement::Node(_) => {
                    proof {
                        lemma_first_token(self.syntax.children@, SyntaxKind::IDENT);
                    }
                    None
                },
            },
            None => None,
        }
    }
}

proof fn lemma_first_token(cs: Seq<SyntaxElement>, k: SyntaxKind)
    ensures
        first_token(cs, k) matches Some(i) ==> 0 <= i < cs.len() && token_of(cs[i], k),
    decreases cs.len(),
{
    if cs.len() > 0 && !token_of(cs[0], k) {
        lemma_first_token(cs.drop_first(), k);
    }
}

/// The text of a name's identifier.
pub fn name_text(name: &Name) -> (r: Option<String>)
    ensures
        r matches Some(s) ==> first_token(name.syntax.children@, SyntaxKind::IDENT) matches Some(i)
            && name.syntax.children@[i] matches SyntaxElement::Token(t) && t.text@ == s@,
        r is None ==> first_token(name.syntax.children@, SyntaxKind::IDENT) is None,
{
    match name.ident() {
        Some(t) => Some(t.text.clone()),
        None => None,
    }
}

} // verus!
