//! The recursive-descent parser: builds a lossless green tree from the tokens.
//!
//! Every token of the source, trivia included, ends up in the tree in source
//! order, so the text of the finished tree is the source text. Errors do not
//! stop the parser: an unexpected token is wrapped in an `ERROR` node and
//! reported. Each parse function builds exactly what its rule in `grammar`
//! gives (its `ensures` names the rule), so the finished tree and the errors
//! are those of `parse_result`.

use vstd::prelude::*;

use crate::grammar::{
    parse_result, recovers, rule_binary, rule_binary_tail, rule_block, rule_block_item,
    rule_block_items, rule_const_decl, rule_const_def, rule_const_defs_tail, rule_const_index_val,
    rule_const_subscripts, rule_decl_or_func_def, rule_field_access, rule_func_def_body,
    rule_func_f_param, rule_func_f_params, rule_func_r_params, rule_args_tail, rule_if,
    rule_init_items, rule_init_val, rule_keyword_stmt, rule_lval_or_call, rule_name,
    rule_operator, rule_params_tail, rule_pointers, rule_postfix, rule_postfix_tail,
    rule_primary, rule_return, rule_root, rule_stars, rule_statement, rule_subscripts,
    rule_top_items, rule_type, rule_unary, rule_var_def, rule_var_defs_tail, rule_while,
    initial_state, ParseState,
};
use crate::green::{
    builder_checkpoint, builder_children, builder_finish, builder_finish_node, builder_new,
    builder_parents, builder_start_node, builder_start_node_at, builder_token, checkpoint_index,
    children_text, elem_text, finished_tree, lemma_children_text_split, GreenElement,
    MAX_TEXT_CHARS,
};
use crate::lexer::{
    kind_at, lemma_next_non_trivia, lemma_tokenize_lossless, lemma_tokenize_nonempty,
    next_non_trivia, tokenize, tokens_text, Lexer,
};
use crate::syntax_kind::{kind_code, trivia_kind, SyntaxKind};

verus! {

/// An error that the parser reports.
#[derive(Debug, Clone, Copy, PartialEq, Eq, Structural)]
pub enum ParserError {
    /// A token of this kind was expected; the parser skipped to a recovery point.
    Expected(SyntaxKind),
    /// A token of kind `expected` was expected, but one of kind `found` stood there.
    ExpectedFound { expected: SyntaxKind, found: SyntaxKind },
    /// A type was expected, but a token of kind `found` stood there.
    ExpectedType { found: SyntaxKind },
}

/// The parser: a lexer, a green-tree builder and the errors found so far.
pub struct Parser {
    lexer: Lexer,
    builder: rowan::GreenNodeBuilder<'static>,
    pub errors: Vec<ParserError>,
}

/// Texts of tokens concatenate piecewise.
pub proof fn lemma_tokens_text_append(
    a: Seq<(SyntaxKind, Seq<char>)>,
    b: Seq<(SyntaxKind, Seq<char>)>,
)
    ensures
        tokens_text(a + b) == tokens_text(a) + tokens_text(b),
    decreases a.len(),
{
    if a.len() == 0 {
        assert(a + b =~= b);
    } else {
        lemma_tokens_text_append(a.drop_first(), b);
        assert((a + b).drop_first() =~= a.drop_first() + b);
    }
}

proof fn lemma_tokens_text_step(toks: Seq<(SyntaxKind, Seq<char>)>, p: int)
    requires
        0 <= p < toks.len(),
    ensures
        tokens_text(toks.take(p + 1)) == tokens_text(toks.take(p)) + toks[p].1,
{
    lemma_tokens_text_append(toks.take(p), seq![toks[p]]);
    assert(toks.take(p + 1) =~= toks.take(p) + seq![toks[p]]);
    assert(seq![toks[p]].drop_first() =~= Seq::<(SyntaxKind, Seq<char>)>::empty());
    assert(tokens_text(seq![toks[p]]) =~= toks[p].1 + tokens_text(Seq::<(SyntaxKind, Seq<char>)>::empty()));
    assert(tokens_text(seq![toks[p]]) =~= toks[p].1);
}

proof fn lemma_next_non_trivia_idem(toks: Seq<(SyntaxKind, Seq<char>)>, i: int)
    requires
        0 <= i <= toks.len(),
    ensures
        next_non_trivia(toks, next_non_trivia(toks, i)) == next_non_trivia(toks, i),
{
    lemma_next_non_trivia(toks, i);
    let j = next_non_trivia(toks, i);
    lemma_next_non_trivia(toks, j);
}

/// Appending one element adds its text.
proof fn lemma_children_text_push(cs: Seq<GreenElement>, e: GreenElement)
    ensures
        children_text(cs.push(e)) == children_text(cs) + elem_text(e),
{
    let p = cs.push(e);
    assert(p.subrange(0, p.len() - 1) =~= cs);
}

impl Parser {
    // -----------------------------------------------------------------------
    // The abstract state
    // -----------------------------------------------------------------------

    /// The tokens of the source.
    pub closed spec fn toks(&self) -> Seq<(SyntaxKind, Seq<char>)> {
        self.lexer.tokens_view()
    }

    /// The index of the next token to consume.
    pub closed spec fn pos(&self) -> nat {
        self.lexer.pos_view()
    }

    /// The errors reported so far.
    pub closed spec fn error_list(&self) -> Seq<ParserError> {
        self.errors@
    }

    /// The source text the parser reads.
    pub closed spec fn source(&self) -> Seq<char> {
        tokens_text(self.toks())
    }

    pub closed spec fn parents(&self) -> Seq<(u16, nat)> {
        builder_parents(self.builder)
    }

    pub closed spec fn children(&self) -> Seq<GreenElement> {
        builder_children(self.builder)
    }

    /// The state of the parse, as the rules of `grammar` see it.
    pub closed spec fn st(&self) -> ParseState {
        ParseState {
            toks: self.toks(),
            pos: self.pos(),
            parents: self.parents(),
            children: self.children(),
            errors: self.error_list(),
        }
    }

    pub closed spec fn remaining(&self) -> nat {
        (self.toks().len() - self.pos()) as nat
    }

    /// The kind of the next non-trivia token, or `EOF`.
    pub closed spec fn peek_kind(&self) -> SyntaxKind {
        self.lexer.peek_kind()
    }

    /// The kind of the non-trivia token after the next one, or `EOF`.
    pub closed spec fn peek_kind_1(&self) -> SyntaxKind {
        self.lexer.peek_kind_1()
    }

    /// The kind of the token under the cursor, trivia included, or `EOF`.
    pub closed spec fn current_kind(&self) -> SyntaxKind {
        kind_at(self.toks(), self.pos() as int)
    }

    /// The tree built so far holds exactly the tokens consumed so far, and the
    /// open nodes start at increasing positions within the children.
    pub closed spec fn wf(&self) -> bool {
        let ps = self.parents();
        &&& self.lexer.wf()
        &&& self.pos() <= self.toks().len()
        &&& tokens_text(self.toks()).len() <= MAX_TEXT_CHARS
        &&& forall|i: int| 0 <= i < self.toks().len() ==> #[trigger] self.toks()[i].0 != SyntaxKind::EOF
        &&& children_text(self.children()) == tokens_text(self.toks().take(self.pos() as int))
        &&& forall|i: int| 0 <= i < ps.len() ==> #[trigger] ps[i].1 <= self.children().len()
        &&& forall|i: int, j: int| 0 <= i < j < ps.len() ==> #[trigger] ps[i].1 <= #[trigger] ps[j].1
    }

    /// A parser over the tokens of its source that has not consumed, built
    /// nor reported anything yet.
    pub closed spec fn fresh(&self) -> bool {
        &&& self.wf()
        &&& self.st() == initial_state(tokenize(self.source()))
    }

    /// `b` follows from `a` by parsing: same tokens, cursor not behind, same
    /// open nodes, no finished child lost.
    pub closed spec fn advanced(a: Parser, b: Parser) -> bool {
        &&& b.wf()
        &&& b.toks() == a.toks()
        &&& b.pos() >= a.pos()
        &&& b.parents() == a.parents()
        &&& b.children().len() >= a.children().len()
    }

    /// `b` has consumed at least one token more than `a`, unless `a` was at the end.
    pub closed spec fn progressed(a: Parser, b: Parser) -> bool {
        a.peek_kind() != SyntaxKind::EOF ==> b.pos() > a.pos()
    }

    proof fn lemma_wf_frame(a: Parser, b: Parser)
        requires
            a.wf(),
            a.lexer == b.lexer,
            a.builder == b.builder,
        ensures
            b.wf(),
            Self::advanced(a, b),
    {
        assert(a.toks() == b.toks());
        assert(a.parents() == b.parents());
        assert(a.children() == b.children());
    }

    proof fn lemma_peek_not_eof(&self)
        requires
            self.wf(),
            self.peek_kind() != SyntaxKind::EOF,
        ensures
            self.pos() < self.toks().len(),
            self.current_kind() != SyntaxKind::EOF,
            next_non_trivia(self.toks(), self.pos() as int) < self.toks().len(),
    {
        lemma_next_non_trivia(self.toks(), self.pos() as int);
    }

    /// The state's view of the cursor agrees with the parser's.
    proof fn lemma_st(&self)
        requires
            self.wf(),
        ensures
            self.st().peek() == self.peek_kind(),
            self.st().peek1() == self.peek_kind_1(),
            self.st().current() == self.current_kind(),
            self.st().rem() == self.remaining(),
            self.st().toks == self.toks(),
            self.st().pos == self.pos(),
            self.st().children == self.children(),
            self.st().parents == self.parents(),
    {
    }

    // -----------------------------------------------------------------------
    // Construction and the finished tree
    // -----------------------------------------------------------------------

    /// A parser over the tokens of `text`.
    pub fn new(text: &str) -> (r: Parser)
        requires
            text@.len() <= MAX_TEXT_CHARS,
        ensures
            r.fresh(),
            r.source() == text@,
            r.error_list().len() == 0,
    {
        let lexer = Lexer::new(text);
        let builder = builder_new();
        let r = Parser { lexer, builder, errors: Vec::new() };
        proof {
            lemma_tokenize_lossless(text@);
            lemma_tokenize_nonempty(text@);
            assert(r.toks().take(0) =~= Seq::<(SyntaxKind, Seq<char>)>::empty());
            assert(children_text(r.children()) =~= Seq::<char>::empty());
            assert(r.error_list() =~= Seq::<ParserError>::empty());
            assert(r.st() =~= initial_state(tokenize(r.source())));
        }
        r
    }

    /// Parses the whole source: the tree and the errors are those that the
    /// grammar gives for the source; the tree is a `COMP_UNIT` node whose text
    /// is the source.
    pub fn parse(self) -> (r: (rowan::GreenNode, Vec<ParserError>))
        requires
            self.fresh(),
        ensures
            finished_tree(r.0) == parse_result(self.source()).children[0],
            r.1@ == parse_result(self.source()).errors,
            finished_tree(r.0) matches GreenElement::Node(k, _) && k == kind_code(SyntaxKind::COMP_UNIT),
            elem_text(finished_tree(r.0)) == self.source(),
    {
        let mut p = self;
        p.parse_root();
        p.finish()
    }

    /// Finishes the tree; all tokens must have been consumed and all nodes closed.
    fn finish(self) -> (r: (rowan::GreenNode, Vec<ParserError>))
        requires
            self.wf(),
            self.pos() == self.toks().len(),
            self.parents().len() == 0,
            self.children().len() == 1,
            self.children()[0] is Node,
        ensures
            finished_tree(r.0) == self.children()[0],
            r.1@ == self.error_list(),
            elem_text(self.children()[0]) == self.source(),
    {
        proof {
            let cs = self.children();
            assert(cs.subrange(0, cs.len() - 1) =~= Seq::<GreenElement>::empty());
            assert(self.toks().take(self.pos() as int) =~= self.toks());
            assert(children_text(cs.subrange(0, cs.len() - 1)) =~= Seq::<char>::empty());
            assert(children_text(cs) =~= elem_text(cs[0]));
        }
        let Parser { lexer: _, builder, errors } = self;
        (builder_finish(builder), errors)
    }

    // -----------------------------------------------------------------------
    // Building the tree
    // -----------------------------------------------------------------------

    fn checkpoint(&self) -> (c: rowan::Checkpoint)
        ensures
            checkpoint_index(c) == self.children().len(),
    {
        builder_checkpoint(&self.builder)
    }

    fn start_node(&mut self, kind: SyntaxKind)
        requires
            old(self).wf(),
        ensures
            final(self).wf(),
            final(self).st() == old(self).st().start(kind),
            final(self).toks() == old(self).toks(),
            final(self).pos() == old(self).pos(),
            final(self).parents() == old(self).parents().push(
                (kind_code(kind), old(self).children().len()),
            ),
            final(self).children() == old(self).children(),
            final(self).error_list() == old(self).error_list(),
            final(self).peek_kind() == old(self).peek_kind(),
    {
        let ghost ps = self.parents();
        builder_start_node(&mut self.builder, kind.code());
        proof {
            let nps = self.parents();
            assert forall|i: int| 0 <= i < nps.len() implies #[trigger] nps[i].1
                <= self.children().len() by {
                if i < ps.len() {
                    assert(nps[i] == ps[i]);
                }
            }
            assert forall|i: int, j: int| 0 <= i < j < nps.len() implies #[trigger] nps[i].1
                <= #[trigger] nps[j].1 by {
                assert(nps[i] == ps[i]);
                if j < ps.len() {
                    assert(nps[j] == ps[j]);
                }
            }
        }
    }

    fn start_node_at(&mut self, c: rowan::Checkpoint, kind: SyntaxKind)
        requires
            old(self).wf(),
            checkpoint_index(c) <= old(self).children().len(),
            old(self).parents().len() > 0 ==> old(self).parents().last().1 <= checkpoint_index(c),
        ensures
            final(self).wf(),
            final(self).st() == old(self).st().start_at(checkpoint_index(c), kind),
            final(self).toks() == old(self).toks(),
            final(self).pos() == old(self).pos(),
            final(self).parents() == old(self).parents().push((kind_code(kind), checkpoint_index(c))),
            final(self).children() == old(self).children(),
            final(self).error_list() == old(self).error_list(),
    {
        let ghost ps = self.parents();
        builder_start_node_at(&mut self.builder, c, kind.code());
        proof {
            let nps = self.parents();
            assert forall|i: int| 0 <= i < nps.len() implies #[trigger] nps[i].1
                <= self.children().len() by {
                if i < ps.len() {
                    assert(nps[i] == ps[i]);
                }
            }
            assert forall|i: int, j: int| 0 <= i < j < nps.len() implies #[trigger] nps[i].1
                <= #[trigger] nps[j].1 by {
                assert(nps[i] == ps[i]);
                if j < ps.len() {
                    assert(nps[j] == ps[j]);
                    assert(ps[i].1 <= ps[j].1);
                } else {
                    assert(ps[i].1 <= ps[ps.len() - 1].1);
                }
            }
        }
    }

    fn finish_node(&mut self)
        requires
            old(self).wf(),
            old(self).parents().len() > 0,
        ensures
            final(self).wf(),
            final(self).st() == old(self).st().finish(),
            final(self).toks() == old(self).toks(),
            final(self).pos() == old(self).pos(),
            final(self).parents() == old(self).parents().drop_last(),
            final(self).children().len() == old(self).parents().last().1 + 1,
            final(self).children().last() is Node,
            final(self).children().last() matches GreenElement::Node(k, _) && k == old(self).parents().last().0,
            final(self).error_list() == old(self).error_list(),
            final(self).peek_kind() == old(self).peek_kind(),
    {
        let ghost cs = self.children();
        let ghost ps = self.parents();
        proof {
            assert(ps[ps.len() - 1].1 <= cs.len());
            let toks = self.toks();
            lemma_tokens_text_append(toks.take(self.pos() as int), toks.skip(self.pos() as int));
            assert(toks.take(self.pos() as int) + toks.skip(self.pos() as int) =~= toks);
        }
        builder_finish_node(&mut self.builder);
        proof {
            let f = ps.last().1;
            lemma_children_text_split(cs, f as int);
            let ncs = self.children();
            lemma_children_text_push(cs.take(f as int), GreenElement::Node(ps.last().0, cs.skip(f as int)));
            assert forall|i: int| 0 <= i < self.parents().len() implies #[trigger] self.parents()[i].1
                <= self.children().len() by {
                assert(self.parents()[i] == ps[i]);
                assert(ps[i].1 <= ps[ps.len() - 1].1);
            }
            assert forall|i: int, j: int| 0 <= i < j < self.parents().len() implies #[trigger] self.parents()[i].1
                <= #[trigger] self.parents()[j].1 by {
                assert(self.parents()[i] == ps[i]);
                assert(self.parents()[j] == ps[j]);
            }
        }
    }

    // -----------------------------------------------------------------------
    // Consuming tokens
    // -----------------------------------------------------------------------

    /// Appends the current token to the tree and moves past it.
    fn push_current(&mut self)
        requires
            old(self).wf(),
        ensures
            Self::advanced(*old(self), *final(self)),
            final(self).st() == old(self).st().push_current(),
            final(self).pos() == (if old(self).pos() < old(self).toks().len() {
                old(self).pos() + 1
            } else {
                old(self).pos()
            }),
            final(self).children().len() == old(self).children().len() + 1,
            final(self).error_list() == old(self).error_list(),
    {
        let ghost toks = self.toks();
        let ghost p = self.pos();
        let kind = self.lexer.current();
        let text = self.lexer.current_text();
        let ghost cs = self.children();
        builder_token(&mut self.builder, kind.code(), text);
        self.lexer.bump();
        proof {
            if p < toks.len() {
                lemma_tokens_text_step(toks, p as int);
            } else {
                assert(text@ =~= Seq::<char>::empty());
            }
            lemma_children_text_push(cs, GreenElement::Token(kind_code(kind), text@));
            let ps = self.parents();
            assert forall|i: int| 0 <= i < ps.len() implies #[trigger] ps[i].1
                <= self.children().len() by {
                assert(old(self).parents()[i].1 <= old(self).children().len());
            }
        }
    }

    /// Consumes trivia tokens, adding them to the tree.
    pub(crate) fn bump_trivia(&mut self)
        requires
            old(self).wf(),
        ensures
            Self::advanced(*old(self), *final(self)),
            final(self).st() == old(self).st().skip_trivia(),
            final(self).pos() == next_non_trivia(old(self).toks(), old(self).pos() as int),
            final(self).peek_kind() == old(self).peek_kind(),
            final(self).error_list() == old(self).error_list(),
    {
        let ghost start = self.pos();
        let ghost toks = self.toks();
        proof {
            lemma_next_non_trivia(toks, start as int);
        }
        while self.lexer.current().is_trivia()
            invariant
                Self::advanced(*old(self), *self),
                self.st().skip_trivia() == old(self).st().skip_trivia(),
                self.error_list() == old(self).error_list(),
                toks == self.toks(),
                start <= self.pos() <= next_non_trivia(toks, start as int),
                next_non_trivia(toks, self.pos() as int) == next_non_trivia(toks, start as int),
            decreases self.remaining(),
        {
            proof {
                lemma_next_non_trivia(toks, self.pos() as int);
            }
            let ghost before = self.st();
            self.push_current();
            proof {
                assert(before.pos < before.toks.len() && trivia_kind(before.toks[before.pos as int].0));
                assert(before.skip_trivia() == before.push_current().skip_trivia());
            }
        }
        proof {
            lemma_next_non_trivia(toks, self.pos() as int);
            let s = self.st();
            assert(!(s.pos < s.toks.len() && trivia_kind(s.toks[s.pos as int].0)));
            assert(s.skip_trivia() == s);
        }
    }

    /// Consumes the current token (after any trivia) and adds it to the tree.
    pub(crate) fn bump(&mut self)
        requires
            old(self).wf(),
        ensures
            Self::advanced(*old(self), *final(self)),
            Self::progressed(*old(self), *final(self)),
            final(self).st() == old(self).st().bump(),
            old(self).current_kind() != SyntaxKind::EOF ==> final(self).pos() > old(self).pos(),
            old(self).peek_kind() != SyntaxKind::EOF ==> final(self).pos() == next_non_trivia(
                old(self).toks(),
                old(self).pos() as int,
            ) + 1,
            final(self).error_list() == old(self).error_list(),
    {
        proof {
            lemma_next_non_trivia(self.toks(), self.pos() as int);
        }
        if self.lexer.current() == SyntaxKind::EOF {
            return;
        }
        self.bump_trivia();
        self.push_current();
    }

    /// Whether the next non-trivia token has kind `kind`.
    pub(crate) fn at(&self, kind: SyntaxKind) -> (r: bool)
        requires
            self.wf(),
        ensures
            r == (self.peek_kind() == kind),
            r == (self.st().peek() == kind),
    {
        self.peek() == kind
    }

    /// Whether the non-trivia token after the next one has kind `kind`.
    pub(crate) fn at_1(&self, kind: SyntaxKind) -> (r: bool)
        requires
            self.wf(),
        ensures
            r == (self.peek_kind_1() == kind),
            r == (self.st().peek1() == kind),
    {
        self.peek_1() == kind
    }

    /// The kind of the next non-trivia token, or `EOF`.
    pub(crate) fn peek(&self) -> (r: SyntaxKind)
        requires
            self.wf(),
        ensures
            r == self.peek_kind(),
            r == self.st().peek(),
    {
        self.lexer.current_without_trivia()
    }

    /// The kind of the non-trivia token after the next one, or `EOF`.
    pub(crate) fn peek_1(&self) -> (r: SyntaxKind)
        requires
            self.wf(),
        ensures
            r == self.peek_kind_1(),
            r == self.st().peek1(),
    {
        self.lexer.current_without_trivia_1()
    }

    /// Records an error and wraps the current token, if any, in an `ERROR` node.
    pub(crate) fn error(&mut self, e: ParserError)
        requires
            old(self).wf(),
        ensures
            Self::advanced(*old(self), *final(self)),
            final(self).st() == old(self).st().error(e),
            old(self).current_kind() != SyntaxKind::EOF ==> final(self).pos() > old(self).pos(),
            Self::progressed(*old(self), *final(self)),
            final(self).error_list() == old(self).error_list().push(e),
    {
        proof {
            lemma_next_non_trivia(self.toks(), self.pos() as int);
        }
        self.errors.push(e);
        proof {
            Self::lemma_wf_frame(*old(self), *self);
            assert(self.st() == old(self).st().report(e));
        }
        if !self.lexer.at(SyntaxKind::EOF) {
            self.start_node(SyntaxKind::ERROR);
            self.bump();
            self.finish_node();
            assert(self.parents() =~= old(self).parents());
        }
    }

    /// Consumes a token of kind `kind`, or reports an error and wraps the token found.
    pub(crate) fn expect(&mut self, kind: SyntaxKind)
        requires
            old(self).wf(),
        ensures
            Self::advanced(*old(self), *final(self)),
            Self::progressed(*old(self), *final(self)),
            final(self).st() == old(self).st().expect(kind),
    {
        proof {
            lemma_next_non_trivia(self.toks(), self.pos() as int);
        }
        self.bump_trivia();
        proof {
            lemma_next_non_trivia_idem(self.toks(), old(self).pos() as int);
        }
        if self.lexer.at(kind) {
            self.bump();
        } else {
            let found = self.lexer.current();
            self.error(ParserError::ExpectedFound { expected: kind, found });
        }
    }

    /// Whether the next non-trivia token ends the skipping after a missing token.
    fn at_recovery(&self, stmt: bool) -> (r: bool)
        requires
            self.wf(),
        ensures
            r == recovers(stmt, self.st().peek()),
    {
        if stmt {
            self.peek().is_stmt_recovery()
        } else {
            self.peek().is_expr_recovery()
        }
    }

    /// Consumes a token of kind `expect_token`; otherwise reports it missing and
    /// wraps everything up to the next recovery point (of a statement when
    /// `stmt`, else of an expression) in an `ERROR` node.
    pub(crate) fn expect_or_else_recovery(&mut self, expect_token: SyntaxKind, stmt: bool)
        requires
            old(self).wf(),
        ensures
            Self::advanced(*old(self), *final(self)),
            final(self).st() == old(self).st().expect_or_recover(expect_token, stmt),
            old(self).peek_kind() == expect_token && expect_token != SyntaxKind::EOF
                ==> final(self).pos() > old(self).pos(),
    {
        if self.at(expect_token) {
            proof {
                if expect_token != SyntaxKind::EOF {
                    self.lemma_peek_not_eof();
                }
            }
            self.bump();
        } else {
            self.errors.push(ParserError::Expected(expect_token));
            proof {
                Self::lemma_wf_frame(*old(self), *self);
                assert(self.st() == old(self).st().report(ParserError::Expected(expect_token)));
            }
            self.start_node(SyntaxKind::ERROR);
            let ghost inner = *self;
            while !self.at_recovery(stmt)
                invariant
                    Self::advanced(inner, *self),
                    self.st().skip_to_recovery(stmt) == inner.st().skip_to_recovery(stmt),
                    inner.parents() == old(self).parents().push((kind_code(SyntaxKind::ERROR), old(self).children().len())),
                decreases self.remaining(),
            {
                proof {
                    self.lemma_st();
                    self.lemma_peek_not_eof();
                }
                let ghost before = self.st();
                self.bump();
                proof {
                    self.lemma_st();
                    assert(self.st().rem() < before.rem());
                    assert(before.skip_to_recovery(stmt) == self.st().skip_to_recovery(stmt));
                }
            }
            self.finish_node();
            assert(self.parents() =~= old(self).parents());
        }
    }

    proof fn lemma_parents_bound(&self)
        requires
            self.wf(),
        ensures
            self.parents().len() > 0 ==> self.parents().last().1 <= self.children().len(),
    {
        if self.parents().len() > 0 {
            assert(self.parents()[self.parents().len() - 1].1 <= self.children().len());
        }
    }

    // -----------------------------------------------------------------------
    // Expressions
    // -----------------------------------------------------------------------

    /// `Expr := LOrExp`
    pub(crate) fn parse_exp(&mut self)
        requires
            old(self).wf(),
        ensures
            Self::advanced(*old(self), *final(self)),
            Self::progressed(*old(self), *final(self)),
            final(self).st() == rule_binary(old(self).st(), 6),
        decreases old(self).remaining(), 12nat,
    {
        self.parse_l_or_exp();
    }

    /// `LOrExp := LAndExp { '||' LAndExp }`, left-associative.
    fn parse_l_or_exp(&mut self)
        requires
            old(self).wf(),
        ensures
            Self::advanced(*old(self), *final(self)),
            Self::progressed(*old(self), *final(self)),
            final(self).st() == rule_binary(old(self).st(), 6),
        decreases old(self).remaining(), 11nat,
    {
        let ghost entry = *self;
        proof {
            entry.lemma_parents_bound();
        }
        let cp = self.checkpoint();
        self.parse_l_and_exp();
        let ghost first = self.st();
        proof {
            entry.lemma_st();
            self.lemma_st();
        }
        while self.at(SyntaxKind::PIPEPIPE)
            invariant
                Self::advanced(entry, *self),
                Self::progressed(entry, *self),
                entry == *old(self),
                checkpoint_index(cp) == entry.children().len(),
                entry.parents().len() > 0 ==> entry.parents().last().1 <= entry.children().len(),
                rule_binary_tail(self.st(), checkpoint_index(cp), 6) == rule_binary_tail(first, checkpoint_index(cp), 6),
                first.rem() <= entry.st().rem(),
                first == rule_binary(entry.st(), 5),
            decreases self.remaining(),
        {
            let ghost before = *self;
            proof {
                before.lemma_st();
                before.lemma_peek_not_eof();
            }
            self.start_node_at(cp, SyntaxKind::BINARY_EXPR);
            self.parse_binary_op();
            let ghost mid = *self;
            proof {
                mid.lemma_st();
            }
            self.parse_l_and_exp();
            self.finish_node();
            assert(self.parents() =~= entry.parents());
            proof {
                self.lemma_st();
                assert(mid.st().rem() <= before.st().rem());
                assert(self.st().rem() < before.st().rem());
                assert(rule_binary_tail(before.st(), checkpoint_index(cp), 6) == rule_binary_tail(self.st(), checkpoint_index(cp), 6));
            }
        }
        proof {
            self.lemma_st();
            assert(rule_binary_tail(self.st(), checkpoint_index(cp), 6) == self.st());
        }
    }

    /// `LAndExp := EqExp { '&&' EqExp }`, left-associative.
    fn parse_l_and_exp(&mut self)
        requires
            old(self).wf(),
        ensures
            Self::advanced(*old(self), *final(self)),
            Self::progressed(*old(self), *final(self)),
            final(self).st() == rule_binary(old(self).st(), 5),
        decreases old(self).remaining(), 10nat,
    {
        let ghost entry = *self;
        proof {
            entry.lemma_parents_bound();
        }
        let cp = self.checkpoint();
        self.parse_eq_exp();
        let ghost first = self.st();
        proof {
            entry.lemma_st();
            self.lemma_st();
        }
        while self.at(SyntaxKind::AMPAMP)
            invariant
                Self::advanced(entry, *self),
                Self::progressed(entry, *self),
                entry == *old(self),
                checkpoint_index(cp) == entry.children().len(),
                entry.parents().len() > 0 ==> entry.parents().last().1 <= entry.children().len(),
                rule_binary_tail(self.st(), checkpoint_index(cp), 5) == rule_binary_tail(first, checkpoint_index(cp), 5),
                first.rem() <= entry.st().rem(),
                first == rule_binary(entry.st(), 4),
            decreases self.remaining(),
        {
            let ghost before = *self;
            proof {
                before.lemma_st();
                before.lemma_peek_not_eof();
            }
            self.start_node_at(cp, SyntaxKind::BINARY_EXPR);
            self.parse_binary_op();
            let ghost mid = *self;
            proof {
                mid.lemma_st();
            }
            self.parse_eq_exp();
            self.finish_node();
            assert(self.parents() =~= entry.parents());
            proof {
                self.lemma_st();
                assert(mid.st().rem() <= before.st().rem());
                assert(self.st().rem() < before.st().rem());
                assert(rule_binary_tail(before.st(), checkpoint_index(cp), 5) == rule_binary_tail(self.st(), checkpoint_index(cp), 5));
            }
        }
        proof {
            self.lemma_st();
            assert(rule_binary_tail(self.st(), checkpoint_index(cp), 5) == self.st());
        }
    }

    /// `EqExp := RelExp { ('==' | '!=') RelExp }`, left-associative.
    fn parse_eq_exp(&mut self)
        requires
            old(self).wf(),
        ensures
            Self::advanced(*old(self), *final(self)),
            Self::progressed(*old(self), *final(self)),
            final(self).st() == rule_binary(old(self).st(), 4),
        decreases old(self).remaining(), 9nat,
    {
        let ghost entry = *self;
        proof {
            entry.lemma_parents_bound();
        }
        let cp = self.checkpoint();
        self.parse_rel_exp();
        let ghost first = self.st();
        proof {
            entry.lemma_st();
            self.lemma_st();
        }
        while self.at(SyntaxKind::EQEQ) || self.at(SyntaxKind::NEQ)
            invariant
                Self::advanced(entry, *self),
                Self::progressed(entry, *self),
                entry == *old(self),
                checkpoint_index(cp) == entry.children().len(),
                entry.parents().len() > 0 ==> entry.parents().last().1 <= entry.children().len(),
                rule_binary_tail(self.st(), checkpoint_index(cp), 4) == rule_binary_tail(first, checkpoint_index(cp), 4),
                first.rem() <= entry.st().rem(),
                first == rule_binary(entry.st(), 3),
            decreases self.remaining(),
        {
            let ghost before = *self;
            proof {
                before.lemma_st();
                before.lemma_peek_not_eof();
            }
            self.start_node_at(cp, SyntaxKind::BINARY_EXPR);
            self.parse_binary_op();
            let ghost mid = *self;
            proof {
                mid.lemma_st();
            }
            self.parse_rel_exp();
            self.finish_node();
            assert(self.parents() =~= entry.parents());
            proof {
                self.lemma_st();
                assert(mid.st().rem() <= before.st().rem());
                assert(self.st().rem() < before.st().rem());
                assert(rule_binary_tail(before.st(), checkpoint_index(cp), 4) == rule_binary_tail(self.st(), checkpoint_index(cp), 4));
            }
        }
        proof {
            self.lemma_st();
            assert(rule_binary_tail(self.st(), checkpoint_index(cp), 4) == self.st());
        }
    }

    /// `RelExp := AddExp { ('<' | '>' | '<=' | '>=') AddExp }`, left-associative.
    fn parse_rel_exp(&mut self)
        requires
            old(self).wf(),
        ensures
            Self::advanced(*old(self), *final(self)),
            Self::progressed(*old(self), *final(self)),
            final(self).st() == rule_binary(old(self).st(), 3),
        decreases old(self).remaining(), 8nat,
    {
        let ghost entry = *self;
        proof {
            entry.lemma_parents_bound();
        }
        let cp = self.checkpoint();
        self.parse_add_exp();
        let ghost first = self.st();
        proof {
            entry.lemma_st();
            self.lemma_st();
        }
        while self.at(SyntaxKind::LT) || self.at(SyntaxKind::GT) || self.at(SyntaxKind::LTEQ) || self.at(SyntaxKind::GTEQ)
            invariant
                Self::advanced(entry, *self),
                Self::progressed(entry, *self),
                entry == *old(self),
                checkpoint_index(cp) == entry.children().len(),
                entry.parents().len() > 0 ==> entry.parents().last().1 <= entry.children().len(),
                rule_binary_tail(self.st(), checkpoint_index(cp), 3) == rule_binary_tail(first, checkpoint_index(cp), 3),
                first.rem() <= entry.st().rem(),
                first == rule_binary(entry.st(), 2),
            decreases self.remaining(),
        {
            let ghost before = *self;
            proof {
                before.lemma_st();
                before.lemma_peek_not_eof();
            }
            self.start_node_at(cp, SyntaxKind::BINARY_EXPR);
            self.parse_binary_op();
            let ghost mid = *self;
            proof {
                mid.lemma_st();
            }
            self.parse_add_exp();
            self.finish_node();
            assert(self.parents() =~= entry.parents());
            proof {
                self.lemma_st();
                assert(mid.st().rem() <= before.st().rem());
                assert(self.st().rem() < before.st().rem());
                assert(rule_binary_tail(before.st(), checkpoint_index(cp), 3) == rule_binary_tail(self.st(), checkpoint_index(cp), 3));
            }
        }
        proof {
            self.lemma_st();
            assert(rule_binary_tail(self.st(), checkpoint_index(cp), 3) == self.st());
        }
    }

    /// `AddExp := MulExp { ('+' | '-') MulExp }`, left-associative.
    fn parse_add_exp(&mut self)
        requires
            old(self).wf(),
        ensures
            Self::advanced(*old(self), *final(self)),
            Self::progressed(*old(self), *final(self)),
            final(self).st() == rule_binary(old(self).st(), 2),
        decreases old(self).remaining(), 7nat,
    {
        let ghost entry = *self;
        proof {
            entry.lemma_parents_bound();
        }
        let cp = self.checkpoint();
        self.parse_mul_exp();
        let ghost first = self.st();
        proof {
            entry.lemma_st();
            self.lemma_st();
        }
        while self.at(SyntaxKind::PLUS) || self.at(SyntaxKind::MINUS)
            invariant
                Self::advanced(entry, *self),
                Self::progressed(entry, *self),
                entry == *old(self),
                checkpoint_index(cp) == entry.children().len(),
                entry.parents().len() > 0 ==> entry.parents().last().1 <= entry.children().len(),
                rule_binary_tail(self.st(), checkpoint_index(cp), 2) == rule_binary_tail(first, checkpoint_index(cp), 2),
                first.rem() <= entry.st().rem(),
                first == rule_binary(entry.st(), 1),
            decreases self.remaining(),
        {
            let ghost before = *self;
            proof {
                before.lemma_st();
                before.lemma_peek_not_eof();
            }
            self.start_node_at(cp, SyntaxKind::BINARY_EXPR);
            self.parse_binary_op();
            let ghost mid = *self;
            proof {
                mid.lemma_st();
            }
            self.parse_mul_exp();
            self.finish_node();
            assert(self.parents() =~= entry.parents());
            proof {
                self.lemma_st();
                assert(mid.st().rem() <= before.st().rem());
                assert(self.st().rem() < before.st().rem());
                assert(rule_binary_tail(before.st(), checkpoint_index(cp), 2) == rule_binary_tail(self.st(), checkpoint_index(cp), 2));
            }
        }
        proof {
            self.lemma_st();
            assert(rule_binary_tail(self.st(), checkpoint_index(cp), 2) == self.st());
        }
    }

    /// `MulExp := UnaryExp { ('*' | '/' | '%') UnaryExp }`, left-associative.
    fn parse_mul_exp(&mut self)
        requires
            old(self).wf(),
        ensures
            Self::advanced(*old(self), *final(self)),
            Self::progressed(*old(self), *final(self)),
            final(self).st() == rule_binary(old(self).st(), 1),
        decreases old(self).remaining(), 6nat,
    {
        let ghost entry = *self;
        proof {
            entry.lemma_parents_bound();
        }
        let cp = self.checkpoint();
        self.parse_unary_exp();
        let ghost first = self.st();
        proof {
            entry.lemma_st();
            self.lemma_st();
        }
        while self.at(SyntaxKind::STAR) || self.at(SyntaxKind::SLASH) || self.at(SyntaxKind::PERCENT)
            invariant
                Self::advanced(entry, *self),
                Self::progressed(entry, *self),
                entry == *old(self),
                checkpoint_index(cp) == entry.children().len(),
                entry.parents().len() > 0 ==> entry.parents().last().1 <= entry.children().len(),
                rule_binary_tail(self.st(), checkpoint_index(cp), 1) == rule_binary_tail(first, checkpoint_index(cp), 1),
                first.rem() <= entry.st().rem(),
                first == rule_binary(entry.st(), 0),
            decreases self.remaining(),
        {
            let ghost before = *self;
            proof {
                before.lemma_st();
                before.lemma_peek_not_eof();
            }
            self.start_node_at(cp, SyntaxKind::BINARY_EXPR);
            self.parse_binary_op();
            let ghost mid = *self;
            proof {
                mid.lemma_st();
            }
            self.parse_unary_exp();
            self.finish_node();
            assert(self.parents() =~= entry.parents());
            proof {
                self.lemma_st();
                assert(mid.st().rem() <= before.st().rem());
                assert(self.st().rem() < before.st().rem());
                assert(rule_binary(mid.st(), 0) == rule_unary(mid.st()));
                assert(rule_binary_tail(before.st(), checkpoint_index(cp), 1) == rule_binary_tail(self.st(), checkpoint_index(cp), 1));
            }
        }
        proof {
            self.lemma_st();
            assert(rule_binary_tail(self.st(), checkpoint_index(cp), 1) == self.st());
        }
    }

    /// `UnaryExp := UnaryOp UnaryExp | PostfixExp`
    fn parse_unary_exp(&mut self)
        requires
            old(self).wf(),
        ensures
            Self::advanced(*old(self), *final(self)),
            Self::progressed(*old(self), *final(self)),
            final(self).st() == rule_unary(old(self).st()),
        decreases old(self).remaining(), 5nat,
    {
        proof {
            old(self).lemma_st();
        }
        if self.peek().is_unary_op() {
            proof {
                old(self).lemma_peek_not_eof();
            }
            self.start_node(SyntaxKind::UNARY_EXPR);
            self.parse_unary_op();
            proof {
                self.lemma_st();
                assert(self.st().rem() < old(self).st().rem());
            }
            self.parse_unary_exp();
            self.finish_node();
            assert(self.parents() =~= old(self).parents());
        } else {
            self.parse_postfix_exp();
        }
    }

    /// `PostfixExp := PrimaryExp { ('.' | '->') FieldAccess }`
    fn parse_postfix_exp(&mut self)
        requires
            old(self).wf(),
        ensures
            Self::advanced(*old(self), *final(self)),
            Self::progressed(*old(self), *final(self)),
            final(self).st() == rule_postfix(old(self).st()),
        decreases old(self).remaining(), 4nat,
    {
        let ghost entry = *self;
        proof {
            entry.lemma_parents_bound();
        }
        let cp = self.checkpoint();
        self.parse_primary_exp();
        let ghost first = self.st();
        proof {
            entry.lemma_st();
            self.lemma_st();
        }
        while self.peek().is_postfix_op()
            invariant
                Self::advanced(entry, *self),
                Self::progressed(entry, *self),
                entry == *old(self),
                checkpoint_index(cp) == entry.children().len(),
                entry.parents().len() > 0 ==> entry.parents().last().1 <= entry.children().len(),
                rule_postfix_tail(self.st(), checkpoint_index(cp)) == rule_postfix_tail(first, checkpoint_index(cp)),
                first.rem() <= entry.st().rem(),
                first == rule_primary(entry.st()),
            decreases self.remaining(),
        {
            let ghost before = *self;
            proof {
                before.lemma_st();
                before.lemma_peek_not_eof();
            }
            self.start_node_at(cp, SyntaxKind::POSTFIX_EXPR);
            self.parse_postfix_op();
            let ghost mid = *self;
            proof {
                mid.lemma_st();
            }
            self.parse_field_access();
            self.finish_node();
            assert(self.parents() =~= entry.parents());
            proof {
                self.lemma_st();
                assert(mid.st().rem() <= before.st().rem());
                assert(self.st().rem() < before.st().rem());
                assert(rule_postfix_tail(before.st(), checkpoint_index(cp)) == rule_postfix_tail(self.st(), checkpoint_index(cp)));
            }
        }
        proof {
            self.lemma_st();
            assert(rule_postfix_tail(self.st(), checkpoint_index(cp)) == self.st());
        }
    }

    /// A node holding the one operator token `.` or `->`.
    fn parse_postfix_op(&mut self)
        requires
            old(self).wf(),
        ensures
            Self::advanced(*old(self), *final(self)),
            Self::progressed(*old(self), *final(self)),
            final(self).st() == rule_operator(old(self).st(), SyntaxKind::POSTFIX_OP),
    {
        self.start_node(SyntaxKind::POSTFIX_OP);
        self.bump();
        self.finish_node();
        assert(self.parents() =~= old(self).parents());
    }

    /// The subscripts `{ '[' Expr ']' }` after a name.
    fn parse_subscripts(&mut self)
        requires
            old(self).wf(),
        ensures
            Self::advanced(*old(self), *final(self)),
            final(self).st() == rule_subscripts(old(self).st()),
        decreases old(self).remaining(), 0nat,
    {
        proof {
            old(self).lemma_st();
        }
        while self.at(SyntaxKind::L_BRACK)
            invariant
                Self::advanced(*old(self), *self),
                rule_subscripts(self.st()) == rule_subscripts(old(self).st()),
            decreases self.remaining(),
        {
            let ghost before = *self;
            proof {
                before.lemma_st();
                before.lemma_peek_not_eof();
            }
            self.bump();
            proof {
                self.lemma_st();
                assert(self.st().rem() < before.st().rem());
            }
            self.parse_exp();
            self.expect_or_else_recovery(SyntaxKind::R_BRACK, false);
            proof {
                self.lemma_st();
                assert(rule_subscripts(before.st()) == rule_subscripts(self.st()));
            }
        }
        proof {
            self.lemma_st();
        }
    }

    /// `FieldAccess := Name { '[' Expr ']' }`
    fn parse_field_access(&mut self)
        requires
            old(self).wf(),
        ensures
            Self::advanced(*old(self), *final(self)),
            Self::progressed(*old(self), *final(self)),
            final(self).st() == rule_field_access(old(self).st()),
        decreases old(self).remaining(), 1nat,
    {
        self.start_node(SyntaxKind::FIELD_ACCESS);
        self.parse_name();
        proof {
            old(self).lemma_st();
            self.lemma_st();
        }
        self.parse_subscripts();
        self.finish_node();
        assert(self.parents() =~= old(self).parents());
    }

    /// `PrimaryExp := '(' Expr ')' | Number | LVal | CallExpr`
    fn parse_primary_exp(&mut self)
        requires
            old(self).wf(),
        ensures
            Self::advanced(*old(self), *final(self)),
            Self::progressed(*old(self), *final(self)),
            final(self).st() == rule_primary(old(self).st()),
        decreases old(self).remaining(), 3nat,
    {
        proof {
            old(self).lemma_st();
        }
        if self.at(SyntaxKind::L_PAREN) {
            self.start_node(SyntaxKind::PAREN_EXPR);
            self.expect_or_else_recovery(SyntaxKind::L_PAREN, false);
            proof {
                self.lemma_st();
                assert(self.st().rem() < old(self).st().rem());
            }
            self.parse_exp();
            self.expect_or_else_recovery(SyntaxKind::R_PAREN, false);
            self.finish_node();
            assert(self.parents() =~= old(self).parents());
        } else if self.peek().is_number() {
            self.start_node(SyntaxKind::LITERAL);
            self.bump();
            self.finish_node();
            assert(self.parents() =~= old(self).parents());
        } else {
            self.parse_lval_or_call_expr();
        }
    }

    /// `CallExpr := Name '(' [FuncRParams] ')'` or `IndexVal := Name { '[' Expr ']' }`
    pub(crate) fn parse_lval_or_call_expr(&mut self)
        requires
            old(self).wf(),
        ensures
            Self::advanced(*old(self), *final(self)),
            Self::progressed(*old(self), *final(self)),
            final(self).st() == rule_lval_or_call(old(self).st()),
        decreases old(self).remaining(), 2nat,
    {
        let ghost entry = *self;
        proof {
            entry.lemma_parents_bound();
            entry.lemma_st();
        }
        let cp = self.checkpoint();
        self.parse_name();
        proof {
            self.lemma_st();
        }
        if self.at(SyntaxKind::L_PAREN) {
            self.start_node_at(cp, SyntaxKind::CALL_EXPR);
            proof {
                self.lemma_peek_not_eof();
            }
            self.expect_or_else_recovery(SyntaxKind::L_PAREN, false);
            proof {
                self.lemma_st();
            }
            if !self.at(SyntaxKind::R_PAREN) {
                proof {
                    assert(self.st().rem() < entry.st().rem());
                }
                self.parse_func_r_params();
            }
            self.expect_or_else_recovery(SyntaxKind::R_PAREN, false);
            self.finish_node();
            assert(self.parents() =~= entry.parents());
        } else {
            self.start_node_at(cp, SyntaxKind::INDEX_VAL);
            proof {
                self.lemma_st();
            }
            self.parse_subscripts();
            self.finish_node();
            assert(self.parents() =~= entry.parents());
        }
    }

    /// A node holding one binary operator token.
    fn parse_binary_op(&mut self)
        requires
            old(self).wf(),
        ensures
            Self::advanced(*old(self), *final(self)),
            Self::progressed(*old(self), *final(self)),
            final(self).st() == rule_operator(old(self).st(), SyntaxKind::BINARY_OP),
    {
        self.start_node(SyntaxKind::BINARY_OP);
        self.bump();
        self.finish_node();
        assert(self.parents() =~= old(self).parents());
    }

    /// A node holding one unary operator token.
    fn parse_unary_op(&mut self)
        requires
            old(self).wf(),
        ensures
            Self::advanced(*old(self), *final(self)),
            Self::progressed(*old(self), *final(self)),
            final(self).st() == rule_operator(old(self).st(), SyntaxKind::UNARY_OP),
    {
        self.start_node(SyntaxKind::UNARY_OP);
        self.bump();
        self.finish_node();
        assert(self.parents() =~= old(self).parents());
    }

    /// `FuncRParams := Expr { ',' Expr }`
    pub(crate) fn parse_func_r_params(&mut self)
        requires
            old(self).wf(),
        ensures
            Self::advanced(*old(self), *final(self)),
            Self::progressed(*old(self), *final(self)),
            final(self).st() == rule_func_r_params(old(self).st()),
        decreases old(self).remaining(), 13nat,
    {
        self.start_node(SyntaxKind::FUNC_R_PARAMS);
        self.parse_exp();
        let ghost inner = *self;
        proof {
            old(self).lemma_st();
            inner.lemma_st();
        }
        while self.at(SyntaxKind::COMMA)
            invariant
                Self::advanced(inner, *self),
                Self::progressed(*old(self), inner),
                inner.pos() >= old(self).pos(),
                inner.toks() == old(self).toks(),
                inner.parents() == old(self).parents().push(
                    (kind_code(SyntaxKind::FUNC_R_PARAMS), old(self).children().len()),
                ),
                rule_args_tail(self.st()) == rule_args_tail(inner.st()),
            decreases self.remaining(),
        {
            let ghost before = *self;
            proof {
                before.lemma_st();
                before.lemma_peek_not_eof();
            }
            self.bump();
            proof {
                self.lemma_st();
                assert(self.st().rem() < before.st().rem());
            }
            self.parse_exp();
            proof {
                self.lemma_st();
                assert(rule_args_tail(before.st()) == rule_args_tail(self.st()));
            }
        }
        proof {
            self.lemma_st();
        }
        self.finish_node();
        assert(self.parents() =~= old(self).parents());
    }

    /// `Name := Ident`
    pub(crate) fn parse_name(&mut self)
        requires
            old(self).wf(),
        ensures
            Self::advanced(*old(self), *final(self)),
            Self::progressed(*old(self), *final(self)),
            final(self).st() == rule_name(old(self).st()),
    {
        self.start_node(SyntaxKind::NAME);
        self.expect(SyntaxKind::IDENT);
        self.finish_node();
        assert(self.parents() =~= old(self).parents());
    }

    // -----------------------------------------------------------------------
    // Statements
    // -----------------------------------------------------------------------

    /// A state at the end of the tokens stays at the end.
    proof fn lemma_eof_stays(a: Parser, b: Parser)
        requires
            a.wf(),
            b.wf(),
            a.toks() == b.toks(),
            a.pos() <= b.pos(),
            a.peek_kind() == SyntaxKind::EOF,
        ensures
            b.peek_kind() == SyntaxKind::EOF,
    {
        let toks = a.toks();
        lemma_next_non_trivia(toks, a.pos() as int);
        lemma_next_non_trivia(toks, b.pos() as int);
        if next_non_trivia(toks, b.pos() as int) < toks.len() {
            let k = next_non_trivia(toks, b.pos() as int);
            assert(trivia_kind(toks[k].0));
        }
    }

    /// `Stmt := IfStmt | WhileStmt | BreakStmt | ContinueStmt | ReturnStmt | Block | ';'
    ///        | Expr '=' Expr ';' | Expr ';'`
    pub(crate) fn parse_statement(&mut self)
        requires
            old(self).wf(),
        ensures
            Self::advanced(*old(self), *final(self)),
            Self::progressed(*old(self), *final(self)),
            final(self).st() == rule_statement(old(self).st()),
        decreases old(self).remaining(), 3nat,
    {
        proof {
            old(self).lemma_st();
        }
        match self.peek() {
            SyntaxKind::IF_KW => self.parse_if_statement(),
            SyntaxKind::WHILE_KW => self.parse_while_statement(),
            SyntaxKind::BREAK_KW => self.parse_break_statement(),
            SyntaxKind::CONTINUE_KW => self.parse_continue_statement(),
            SyntaxKind::RETURN_KW => self.parse_return_statement(),
            SyntaxKind::L_BRACE => self.parse_block(),
            SyntaxKind::SEMI => {
                self.bump();
            },
            _ => {
                let ghost entry = *self;
                proof {
                    entry.lemma_parents_bound();
                }
                let cp = self.checkpoint();
                self.parse_exp();
                if self.at(SyntaxKind::EQ) {
                    self.start_node_at(cp, SyntaxKind::ASSIGN_STMT);
                    self.bump();
                    self.parse_exp();
                    self.expect_or_else_recovery(SyntaxKind::SEMI, true);
                    self.finish_node();
                    assert(self.parents() =~= entry.parents());
                } else {
                    self.start_node_at(cp, SyntaxKind::EXPR_STMT);
                    self.expect_or_else_recovery(SyntaxKind::SEMI, true);
                    self.finish_node();
                    assert(self.parents() =~= entry.parents());
                }
            },
        }
    }

    /// `IfStmt := 'if' '(' Expr ')' Stmt ['else' Stmt]`
    fn parse_if_statement(&mut self)
        requires
            old(self).wf(),
            old(self).peek_kind() == SyntaxKind::IF_KW,
        ensures
            Self::advanced(*old(self), *final(self)),
            Self::progressed(*old(self), *final(self)),
            final(self).st() == rule_if(old(self).st()),
        decreases old(self).remaining(), 1nat,
    {
        proof {
            old(self).lemma_st();
        }
        self.start_node(SyntaxKind::IF_STMT);
        self.expect_or_else_recovery(SyntaxKind::IF_KW, true);
        self.expect_or_else_recovery(SyntaxKind::L_PAREN, true);
        self.parse_exp();
        self.expect_or_else_recovery(SyntaxKind::R_PAREN, true);
        proof {
            self.lemma_st();
            assert(self.st().rem() < old(self).st().rem());
        }
        self.parse_statement();
        proof {
            self.lemma_st();
        }
        if self.at(SyntaxKind::ELSE_KW) {
            proof {
                self.lemma_peek_not_eof();
            }
            self.bump();
            proof {
                self.lemma_st();
                assert(self.st().rem() < old(self).st().rem());
            }
            self.parse_statement();
        }
        self.finish_node();
        assert(self.parents() =~= old(self).parents());
    }

    /// `WhileStmt := 'while' '(' Expr ')' Stmt`
    fn parse_while_statement(&mut self)
        requires
            old(self).wf(),
            old(self).peek_kind() == SyntaxKind::WHILE_KW,
        ensures
            Self::advanced(*old(self), *final(self)),
            Self::progressed(*old(self), *final(self)),
            final(self).st() == rule_while(old(self).st()),
        decreases old(self).remaining(), 1nat,
    {
        proof {
            old(self).lemma_st();
        }
        self.start_node(SyntaxKind::WHILE_STMT);
        self.expect_or_else_recovery(SyntaxKind::WHILE_KW, true);
        self.expect_or_else_recovery(SyntaxKind::L_PAREN, true);
        self.parse_exp();
        self.expect_or_else_recovery(SyntaxKind::R_PAREN, true);
        proof {
            self.lemma_st();
            assert(self.st().rem() < old(self).st().rem());
        }
        self.parse_statement();
        self.finish_node();
        assert(self.parents() =~= old(self).parents());
    }

    /// `BreakStmt := 'break' ';'`
    fn parse_break_statement(&mut self)
        requires
            old(self).wf(),
            old(self).peek_kind() == SyntaxKind::BREAK_KW,
        ensures
            Self::advanced(*old(self), *final(self)),
            Self::progressed(*old(self), *final(self)),
            final(self).st() == rule_keyword_stmt(old(self).st(), SyntaxKind::BREAK_STMT, SyntaxKind::BREAK_KW),
    {
        self.start_node(SyntaxKind::BREAK_STMT);
        self.expect_or_else_recovery(SyntaxKind::BREAK_KW, true);
        self.expect_or_else_recovery(SyntaxKind::SEMI, true);
        self.finish_node();
        assert(self.parents() =~= old(self).parents());
    }

    /// `ContinueStmt := 'continue' ';'`
    fn parse_continue_statement(&mut self)
        requires
            old(self).wf(),
            old(self).peek_kind() == SyntaxKind::CONTINUE_KW,
        ensures
            Self::advanced(*old(self), *final(self)),
            Self::progressed(*old(self), *final(self)),
            final(self).st() == rule_keyword_stmt(old(self).st(), SyntaxKind::CONTINUE_STMT, SyntaxKind::CONTINUE_KW),
    {
        self.start_node(SyntaxKind::CONTINUE_STMT);
        self.expect_or_else_recovery(SyntaxKind::CONTINUE_KW, true);
        self.expect_or_else_recovery(SyntaxKind::SEMI, true);
        self.finish_node();
        assert(self.parents() =~= old(self).parents());
    }

    /// `ReturnStmt := 'return' [Expr] ';'`
    fn parse_return_statement(&mut self)
        requires
            old(self).wf(),
            old(self).peek_kind() == SyntaxKind::RETURN_KW,
        ensures
            Self::advanced(*old(self), *final(self)),
            Self::progressed(*old(self), *final(self)),
            final(self).st() == rule_return(old(self).st()),
    {
        self.start_node(SyntaxKind::RETURN_STMT);
        self.expect_or_else_recovery(SyntaxKind::RETURN_KW, true);
        proof {
            self.lemma_st();
        }
        if !self.at(SyntaxKind::SEMI) {
            self.parse_exp();
        }
        self.expect_or_else_recovery(SyntaxKind::SEMI, true);
        self.finish_node();
        assert(self.parents() =~= old(self).parents());
    }

    /// `Block := '{' {BlockItem} '}'`
    pub(crate) fn parse_block(&mut self)
        requires
            old(self).wf(),
        ensures
            Self::advanced(*old(self), *final(self)),
            Self::progressed(*old(self), *final(self)),
            final(self).st() == rule_block(old(self).st()),
        decreases old(self).remaining(), 2nat,
    {
        proof {
            old(self).lemma_st();
        }
        self.start_node(SyntaxKind::BLOCK);
        let ghost inner = *self;
        self.expect(SyntaxKind::L_BRACE);
        let ghost first = self.st();
        proof {
            self.lemma_st();
            if old(self).peek_kind() == SyntaxKind::EOF {
                Self::lemma_eof_stays(*old(self), *self);
            }
        }
        while !(self.at(SyntaxKind::R_BRACE) || self.at(SyntaxKind::EOF))
            invariant
                Self::advanced(inner, *self),
                Self::progressed(*old(self), *self),
                inner.pos() == old(self).pos(),
                inner.toks() == old(self).toks(),
                old(self).peek_kind() == SyntaxKind::EOF ==> self.peek_kind() == SyntaxKind::EOF,
                inner.parents() == old(self).parents().push(
                    (kind_code(SyntaxKind::BLOCK), old(self).children().len()),
                ),
                rule_block_items(self.st()) == rule_block_items(first),
                old(self).peek_kind() == SyntaxKind::EOF ==> self.st() == first,
            decreases self.remaining(),
        {
            let ghost before = *self;
            proof {
                before.lemma_st();
            }
            self.parse_block_item();
            proof {
                self.lemma_st();
                if old(self).peek_kind() == SyntaxKind::EOF {
                    Self::lemma_eof_stays(*old(self), *self);
                }
                assert(self.st().rem() < before.st().rem());
                assert(rule_block_items(before.st()) == rule_block_items(self.st()));
            }
        }
        proof {
            self.lemma_st();
            assert(rule_block_items(self.st()) == self.st());
            if !(first.rem() < old(self).st().rem()) {
                assert(old(self).peek_kind() == SyntaxKind::EOF);
                assert(self.st() == first);
            }
        }
        self.expect(SyntaxKind::R_BRACE);
        self.finish_node();
        assert(self.parents() =~= old(self).parents());
    }

    /// `BlockItem := VarDecl | ConstDecl | Stmt`
    fn parse_block_item(&mut self)
        requires
            old(self).wf(),
        ensures
            Self::advanced(*old(self), *final(self)),
            Self::progressed(*old(self), *final(self)),
            final(self).st() == rule_block_item(old(self).st()),
        decreases old(self).remaining(), 4nat,
    {
        proof {
            old(self).lemma_st();
        }
        let k = self.peek();
        if k == SyntaxKind::INT_KW || k == SyntaxKind::FLOAT_KW || k == SyntaxKind::STRUCT_KW {
            self.start_node(SyntaxKind::VAR_DECL);
            self.parse_type();
            self.parse_var_def();
            self.parse_var_defs_tail();
            self.expect(SyntaxKind::SEMI);
            self.finish_node();
            assert(self.parents() =~= old(self).parents());
        } else if k == SyntaxKind::CONST_KW {
            self.parse_const_decl();
        } else {
            self.parse_statement();
        }
    }

    /// The further definitions `{',' VarDef}` of a variable declaration.
    fn parse_var_defs_tail(&mut self)
        requires
            old(self).wf(),
        ensures
            Self::advanced(*old(self), *final(self)),
            final(self).st() == rule_var_defs_tail(old(self).st()),
    {
        proof {
            old(self).lemma_st();
        }
        while self.at(SyntaxKind::COMMA)
            invariant
                Self::advanced(*old(self), *self),
                rule_var_defs_tail(self.st()) == rule_var_defs_tail(old(self).st()),
            decreases self.remaining(),
        {
            let ghost before = *self;
            proof {
                before.lemma_st();
                before.lemma_peek_not_eof();
            }
            self.bump();
            self.parse_var_def();
            proof {
                self.lemma_st();
                assert(self.st().rem() < before.st().rem());
                assert(rule_var_defs_tail(before.st()) == rule_var_defs_tail(self.st()));
            }
        }
        proof {
            self.lemma_st();
        }
    }

    // -----------------------------------------------------------------------
    // Declarations
    // -----------------------------------------------------------------------

    /// `CompUnit := {ConstDecl | VarDecl | FuncDef}`, with all trivia kept.
    fn parse_root(&mut self)
        requires
            old(self).fresh(),
        ensures
            final(self).wf(),
            final(self).st() == rule_root(old(self).st()),
            final(self).toks() == old(self).toks(),
            final(self).pos() == final(self).toks().len(),
            final(self).parents().len() == 0,
            final(self).children().len() == 1,
            final(self).children()[0] is Node,
            final(self).children()[0] matches GreenElement::Node(k, _) && k == kind_code(SyntaxKind::COMP_UNIT),
    {
        self.start_node(SyntaxKind::COMP_UNIT);
        let ghost inner = *self;
        self.bump_trivia();
        let ghost first = self.st();
        proof {
            lemma_next_non_trivia_idem(self.toks(), old(self).pos() as int);
            self.lemma_st();
        }
        while self.peek() != SyntaxKind::EOF
            invariant
                Self::advanced(inner, *self),
                inner.parents() == seq![(kind_code(SyntaxKind::COMP_UNIT), 0nat)],
                self.pos() == next_non_trivia(self.toks(), self.pos() as int),
                rule_top_items(self.st()) == rule_top_items(first),
            decreases self.remaining(),
        {
            let ghost before = *self;
            proof {
                before.lemma_st();
                before.lemma_peek_not_eof();
            }
            if self.at(SyntaxKind::CONST_KW) {
                self.parse_const_decl();
            } else {
                self.parse_decl_or_func_def();
            }
            let ghost mid = self.pos();
            self.bump_trivia();
            proof {
                lemma_next_non_trivia(self.toks(), mid as int);
                lemma_next_non_trivia_idem(self.toks(), mid as int);
                self.lemma_st();
                assert(self.st().rem() < before.st().rem());
                assert(rule_top_items(before.st()) == rule_top_items(self.st()));
            }
        }
        proof {
            lemma_next_non_trivia(self.toks(), self.pos() as int);
            self.lemma_st();
            assert(rule_top_items(self.st()) == self.st());
        }
        self.finish_node();
        assert(self.parents() =~= Seq::<(u16, nat)>::empty());
    }

    /// `ConstDecl := 'const' Type ConstDef {',' ConstDef} ';'`
    fn parse_const_decl(&mut self)
        requires
            old(self).wf(),
        ensures
            Self::advanced(*old(self), *final(self)),
            Self::progressed(*old(self), *final(self)),
            final(self).st() == rule_const_decl(old(self).st()),
    {
        self.start_node(SyntaxKind::CONST_DECL);
        self.expect(SyntaxKind::CONST_KW);
        self.parse_type();
        self.parse_const_def();
        let ghost inner = *self;
        proof {
            inner.lemma_st();
        }
        while self.at(SyntaxKind::COMMA)
            invariant
                Self::advanced(inner, *self),
                Self::progressed(*old(self), inner),
                inner.pos() >= old(self).pos(),
                inner.toks() == old(self).toks(),
                inner.parents() == old(self).parents().push(
                    (kind_code(SyntaxKind::CONST_DECL), old(self).children().len()),
                ),
                rule_const_defs_tail(self.st()) == rule_const_defs_tail(inner.st()),
            decreases self.remaining(),
        {
            let ghost before = *self;
            proof {
                before.lemma_st();
                before.lemma_peek_not_eof();
            }
            self.bump();
            self.parse_const_def();
            proof {
                self.lemma_st();
                assert(self.st().rem() < before.st().rem());
                assert(rule_const_defs_tail(before.st()) == rule_const_defs_tail(self.st()));
            }
        }
        proof {
            self.lemma_st();
        }
        self.expect(SyntaxKind::SEMI);
        self.finish_node();
        assert(self.parents() =~= old(self).parents());
    }

    /// `ConstDef := [Pointer] ConstIndexVal '=' ConstInitVal`
    fn parse_const_def(&mut self)
        requires
            old(self).wf(),
        ensures
            Self::advanced(*old(self), *final(self)),
            final(self).st() == rule_const_def(old(self).st()),
            final(self).children().len() == old(self).children().len() + 1,
    {
        self.start_node(SyntaxKind::CONST_DEF);
        self.parse_pointers();
        self.parse_const_index_val();
        self.expect(SyntaxKind::EQ);
        self.parse_const_init_val();
        self.finish_node();
        assert(self.parents() =~= old(self).parents());
    }

    /// A global variable declaration or a function definition; which one is
    /// decided by `void` or by a `(` after the name.
    fn parse_decl_or_func_def(&mut self)
        requires
            old(self).wf(),
        ensures
            Self::advanced(*old(self), *final(self)),
            Self::progressed(*old(self), *final(self)),
            final(self).st() == rule_decl_or_func_def(old(self).st()),
    {
        let ghost entry = *self;
        proof {
            entry.lemma_parents_bound();
            entry.lemma_st();
        }
        let cp_start = self.checkpoint();
        if self.at(SyntaxKind::VOID_KW) {
            self.start_node_at(cp_start, SyntaxKind::FUNC_DEF);
            self.start_node(SyntaxKind::FUNC_TYPE);
            let ghost t = *self;
            self.bump();
            self.parse_pointers();
            self.finish_node();
            assert(self.parents() =~= t.parents().drop_last());
            self.parse_name();
            self.parse_func_def_body();
            self.finish_node();
            assert(self.parents() =~= entry.parents());
            return;
        }
        let cp_func_type = self.checkpoint();
        self.parse_type();
        let cp_vardef = self.checkpoint();
        self.parse_pointers();
        proof {
            self.lemma_st();
        }
        if self.at_1(SyntaxKind::L_PAREN) {
            self.start_node_at(cp_start, SyntaxKind::FUNC_DEF);
            let ghost f = *self;
            self.start_node_at(cp_func_type, SyntaxKind::FUNC_TYPE);
            self.finish_node();
            assert(self.parents() =~= f.parents());
            self.parse_name();
            self.parse_func_def_body();
            self.finish_node();
            assert(self.parents() =~= entry.parents());
        } else {
            self.start_node_at(cp_start, SyntaxKind::VAR_DECL);
            let ghost d = *self;
            self.start_node_at(cp_vardef, SyntaxKind::VAR_DEF);
            self.parse_const_index_val();
            if self.at(SyntaxKind::EQ) {
                self.bump();
                self.parse_init_val();
            }
            self.finish_node();
            assert(self.parents() =~= d.parents());
            self.parse_var_defs_tail();
            self.expect(SyntaxKind::SEMI);
            self.finish_node();
            assert(self.parents() =~= entry.parents());
        }
    }

    /// `Pointer := '*' ['const'] {'*' ['const']}`, if a `*` comes next: then
    /// the stars (each with its `const`) are consumed into one `POINTER` node
    /// added after the children already built, up to the first token that is
    /// not a `*`; otherwise nothing changes.
    fn parse_pointers(&mut self)
        requires
            old(self).wf(),
        ensures
            Self::advanced(*old(self), *final(self)),
            final(self).st() == rule_pointers(old(self).st()),
            old(self).peek_kind() != SyntaxKind::STAR ==> *final(self) == *old(self),
            old(self).peek_kind() == SyntaxKind::STAR ==> {
                &&& final(self).pos() > old(self).pos()
                &&& final(self).children().len() == old(self).children().len() + 1
            },
            final(self).peek_kind() != SyntaxKind::STAR,
    {
        proof {
            old(self).lemma_st();
        }
        if !self.at(SyntaxKind::STAR) {
            return;
        }
        self.start_node(SyntaxKind::POINTER);
        let ghost inner = *self;
        proof {
            inner.lemma_st();
        }
        while self.at(SyntaxKind::STAR)
            invariant
                Self::advanced(inner, *self),
                inner.parents() == old(self).parents().push(
                    (kind_code(SyntaxKind::POINTER), old(self).children().len()),
                ),
                inner.peek_kind() == SyntaxKind::STAR,
                inner.pos() == old(self).pos(),
                self.pos() > inner.pos() || *self == inner,
                rule_stars(self.st()) == rule_stars(inner.st()),
            decreases self.remaining(),
        {
            let ghost before = *self;
            proof {
                before.lemma_st();
                before.lemma_peek_not_eof();
            }
            self.bump();
            proof {
                self.lemma_st();
            }
            if self.at(SyntaxKind::CONST_KW) {
                self.bump();
            }
            proof {
                self.lemma_st();
                assert(self.st().rem() < before.st().rem());
                assert(rule_stars(before.st()) == rule_stars(self.st()));
            }
        }
        proof {
            self.lemma_st();
        }
        self.finish_node();
        assert(self.parents() =~= old(self).parents());
    }

    /// `'(' [FuncFParams] ')' Block` after a function's name.
    fn parse_func_def_body(&mut self)
        requires
            old(self).wf(),
        ensures
            Self::advanced(*old(self), *final(self)),
            Self::progressed(*old(self), *final(self)),
            final(self).st() == rule_func_def_body(old(self).st()),
    {
        self.expect(SyntaxKind::L_PAREN);
        proof {
            self.lemma_st();
        }
        if !self.at(SyntaxKind::R_PAREN) {
            self.parse_func_f_params();
        }
        self.expect(SyntaxKind::R_PAREN);
        self.parse_block();
    }

    /// `VarDef := [Pointer] ConstIndexVal ['=' InitVal]`
    fn parse_var_def(&mut self)
        requires
            old(self).wf(),
        ensures
            Self::advanced(*old(self), *final(self)),
            Self::progressed(*old(self), *final(self)),
            final(self).st() == rule_var_def(old(self).st()),
    {
        self.start_node(SyntaxKind::VAR_DEF);
        self.parse_pointers();
        self.parse_const_index_val();
        proof {
            self.lemma_st();
        }
        if self.at(SyntaxKind::EQ) {
            self.bump();
            self.parse_init_val();
        }
        self.finish_node();
        assert(self.parents() =~= old(self).parents());
    }

    /// `Type := 'int' | 'float' | 'struct' Name`
    fn parse_type(&mut self)
        requires
            old(self).wf(),
        ensures
            Self::advanced(*old(self), *final(self)),
            Self::progressed(*old(self), *final(self)),
            final(self).st() == rule_type(old(self).st()),
    {
        self.start_node(SyntaxKind::TYPE);
        let current_token = self.peek();
        proof {
            self.lemma_peek_not_eof_or_eof();
        }
        if current_token == SyntaxKind::INT_KW || current_token == SyntaxKind::FLOAT_KW {
            self.bump();
        } else if current_token == SyntaxKind::STRUCT_KW {
            self.bump();
            self.parse_name();
        } else {
            self.error(ParserError::ExpectedType { found: current_token });
        }
        self.finish_node();
        assert(self.parents() =~= old(self).parents());
    }

    /// `ConstInitVal := ConstExp | '{' [ConstInitVal {',' ConstInitVal}] '}'`
    fn parse_const_init_val(&mut self)
        requires
            old(self).wf(),
        ensures
            Self::advanced(*old(self), *final(self)),
            Self::progressed(*old(self), *final(self)),
            final(self).st() == rule_init_val(old(self).st(), SyntaxKind::CONST_INIT_VAL, true),
    {
        self.parse_init_val_generic(SyntaxKind::CONST_INIT_VAL, true);
    }

    /// `InitVal := Expr | '{' [InitVal {',' InitVal}] '}'`
    fn parse_init_val(&mut self)
        requires
            old(self).wf(),
        ensures
            Self::advanced(*old(self), *final(self)),
            Self::progressed(*old(self), *final(self)),
            final(self).st() == rule_init_val(old(self).st(), SyntaxKind::INIT_VAL, false),
    {
        self.parse_init_val_generic(SyntaxKind::INIT_VAL, false);
    }

    /// An initializer: a braced list of nested initializers of the same kind,
    /// or one expression (a constant expression when `is_const`).
    fn parse_init_val_generic(&mut self, kind: SyntaxKind, is_const: bool)
        requires
            old(self).wf(),
        ensures
            Self::advanced(*old(self), *final(self)),
            Self::progressed(*old(self), *final(self)),
            final(self).st() == rule_init_val(old(self).st(), kind, is_const),
        decreases old(self).remaining(),
    {
        proof {
            old(self).lemma_st();
        }
        self.start_node(kind);
        if self.at(SyntaxKind::L_BRACE) {
            proof {
                self.lemma_peek_not_eof();
            }
            self.bump();
            let ghost inner = *self;
            proof {
                inner.lemma_st();
                assert(inner.st().rem() < old(self).st().rem());
            }
            while !(self.at(SyntaxKind::R_BRACE) || self.at(SyntaxKind::EOF))
                invariant
                    Self::advanced(inner, *self),
                    inner.pos() > old(self).pos(),
                    inner.toks() == old(self).toks(),
                    inner.parents() == old(self).parents().push(
                        (kind_code(kind), old(self).children().len()),
                    ),
                    rule_init_items(self.st(), kind, is_const) == rule_init_items(inner.st(), kind, is_const),
                decreases self.remaining(),
            {
                let ghost before = *self;
                proof {
                    before.lemma_st();
                }
                self.parse_init_val_generic(kind, is_const);
                proof {
                    self.lemma_st();
                }
                if self.at(SyntaxKind::COMMA) {
                    self.bump();
                }
                proof {
                    self.lemma_st();
                    assert(self.st().rem() < before.st().rem());
                    assert(rule_init_items(before.st(), kind, is_const) == rule_init_items(self.st(), kind, is_const));
                }
            }
            proof {
                self.lemma_st();
                assert(rule_init_items(self.st(), kind, is_const) == self.st());
            }
            self.expect(SyntaxKind::R_BRACE);
        } else if is_const {
            self.parse_const_exp();
        } else {
            self.parse_exp();
        }
        self.finish_node();
        assert(self.parents() =~= old(self).parents());
    }

    /// `ConstExp := AddExp`
    fn parse_const_exp(&mut self)
        requires
            old(self).wf(),
        ensures
            Self::advanced(*old(self), *final(self)),
            Self::progressed(*old(self), *final(self)),
            final(self).st() == rule_binary(old(self).st(), 2),
    {
        self.parse_add_exp();
    }

    /// `FuncFParams := FuncFParam {',' FuncFParam}`
    fn parse_func_f_params(&mut self)
        requires
            old(self).wf(),
        ensures
            Self::advanced(*old(self), *final(self)),
            Self::progressed(*old(self), *final(self)),
            final(self).st() == rule_func_f_params(old(self).st()),
    {
        self.start_node(SyntaxKind::FUNC_F_PARAMS);
        self.parse_func_f_param();
        let ghost inner = *self;
        proof {
            inner.lemma_st();
        }
        while self.at(SyntaxKind::COMMA)
            invariant
                Self::advanced(inner, *self),
                Self::progressed(*old(self), inner),
                inner.pos() >= old(self).pos(),
                inner.toks() == old(self).toks(),
                inner.parents() == old(self).parents().push(
                    (kind_code(SyntaxKind::FUNC_F_PARAMS), old(self).children().len()),
                ),
                rule_params_tail(self.st()) == rule_params_tail(inner.st()),
            decreases self.remaining(),
        {
            let ghost before = *self;
            proof {
                before.lemma_st();
                before.lemma_peek_not_eof();
            }
            self.bump();
            self.parse_func_f_param();
            proof {
                self.lemma_st();
                assert(self.st().rem() < before.st().rem());
                assert(rule_params_tail(before.st()) == rule_params_tail(self.st()));
            }
        }
        proof {
            self.lemma_st();
        }
        self.finish_node();
        assert(self.parents() =~= old(self).parents());
    }

    /// `FuncFParam := Type [Pointer] Name ['[' ']' {'[' ConstExp ']'}]`
    fn parse_func_f_param(&mut self)
        requires
            old(self).wf(),
        ensures
            Self::advanced(*old(self), *final(self)),
            Self::progressed(*old(self), *final(self)),
            final(self).st() == rule_func_f_param(old(self).st()),
    {
        self.start_node(SyntaxKind::FUNC_F_PARAM);
        self.parse_type();
        self.parse_pointers();
        self.parse_name();
        proof {
            self.lemma_st();
        }
        if self.at(SyntaxKind::L_BRACK) {
            self.bump();
            self.expect(SyntaxKind::R_BRACK);
            self.parse_const_subscripts();
        }
        self.finish_node();
        assert(self.parents() =~= old(self).parents());
    }

    /// The subscripts `{'[' ConstExp ']'}` of a definition or a parameter.
    fn parse_const_subscripts(&mut self)
        requires
            old(self).wf(),
        ensures
            Self::advanced(*old(self), *final(self)),
            final(self).st() == rule_const_subscripts(old(self).st()),
    {
        proof {
            old(self).lemma_st();
        }
        while self.at(SyntaxKind::L_BRACK)
            invariant
                Self::advanced(*old(self), *self),
                rule_const_subscripts(self.st()) == rule_const_subscripts(old(self).st()),
            decreases self.remaining(),
        {
            let ghost before = *self;
            proof {
                before.lemma_st();
                before.lemma_peek_not_eof();
            }
            self.bump();
            self.parse_const_exp();
            self.expect(SyntaxKind::R_BRACK);
            proof {
                self.lemma_st();
                assert(self.st().rem() < before.st().rem());
                assert(rule_const_subscripts(before.st()) == rule_const_subscripts(self.st()));
            }
        }
        proof {
            self.lemma_st();
        }
    }

    /// `ConstIndexVal := Name {'[' ConstExp ']'}`
    pub(crate) fn parse_const_index_val(&mut self)
        requires
            old(self).wf(),
        ensures
            Self::advanced(*old(self), *final(self)),
            Self::progressed(*old(self), *final(self)),
            final(self).st() == rule_const_index_val(old(self).st()),
    {
        self.start_node(SyntaxKind::CONST_INDEX_VAL);
        self.parse_name();
        self.parse_const_subscripts();
        self.finish_node();
        assert(self.parents() =~= old(self).parents());
    }

    proof fn lemma_peek_not_eof_or_eof(&self)
        requires
            self.wf(),
        ensures
            self.peek_kind() != SyntaxKind::EOF ==> self.current_kind() != SyntaxKind::EOF,
    {
        if self.peek_kind() != SyntaxKind::EOF {
            self.lemma_peek_not_eof();
        }
    }
}

} // verus!
