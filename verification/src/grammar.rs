//! The grammar as a function from tokens to a syntax tree and a list of errors.
//!
//! A parse runs over a state: the tokens, the index of the next one, the open
//! nodes (each with its kind and the index of its first child) and the
//! finished children (tokens and nodes, each node with its own children), and
//! the errors reported so far. Each rule below maps a state to the state after
//! the rule has been parsed; `parse_result` runs the whole grammar over the
//! tokens of a text. A node holds exactly the elements that were finished
//! between its start and its end, so the tree records the nesting of the rules.
//!
//! Where a rule calls itself, the call stands behind a test that the cursor has
//! not moved back (or has moved on), which is what makes the rules total; the
//! parser shows that these tests always pass.

use vstd::prelude::*;

use crate::green::GreenElement;
use crate::lexer::{kind_at, next_non_trivia, tokenize};
use crate::parser::ParserError;
use crate::syntax_kind::{
    expr_recovery_kind, kind_code, number_kind, postfix_op_kind, stmt_recovery_kind, trivia_kind,
    unary_op_kind, SyntaxKind,
};

verus! {

/// The state of a parse.
pub struct ParseState {
    pub toks: Seq<(SyntaxKind, Seq<char>)>,
    pub pos: nat,
    pub parents: Seq<(u16, nat)>,
    pub children: Seq<GreenElement>,
    pub errors: Seq<ParserError>,
}

/// The state before anything of `toks` is parsed.
pub open spec fn initial_state(toks: Seq<(SyntaxKind, Seq<char>)>) -> ParseState {
    ParseState {
        toks,
        pos: 0,
        parents: Seq::empty(),
        children: Seq::empty(),
        errors: Seq::empty(),
    }
}

/// The state after parsing the whole of `text`: its one child is the
/// `COMP_UNIT` tree, and its errors are those the parser reports.
pub open spec fn parse_result(text: Seq<char>) -> ParseState {
    rule_root(initial_state(tokenize(text)))
}

/// Whether `k` ends the skipping after a missing token: the statement set or
/// the expression set.
pub open spec fn recovers(stmt: bool, k: SyntaxKind) -> bool {
    if stmt {
        stmt_recovery_kind(k)
    } else {
        expr_recovery_kind(k)
    }
}

/// The operators of each binary level, from `*` (level 1) to `||` (level 6).
pub open spec fn binary_op_at(lvl: nat, k: SyntaxKind) -> bool {
    if lvl == 6 {
        k == SyntaxKind::PIPEPIPE
    } else if lvl == 5 {
        k == SyntaxKind::AMPAMP
    } else if lvl == 4 {
        k == SyntaxKind::EQEQ || k == SyntaxKind::NEQ
    } else if lvl == 3 {
        k == SyntaxKind::LT || k == SyntaxKind::GT || k == SyntaxKind::LTEQ || k == SyntaxKind::GTEQ
    } else if lvl == 2 {
        k == SyntaxKind::PLUS || k == SyntaxKind::MINUS
    } else if lvl == 1 {
        k == SyntaxKind::STAR || k == SyntaxKind::SLASH || k == SyntaxKind::PERCENT
    } else {
        false
    }
}

impl ParseState {
    /// The number of tokens not consumed yet.
    pub open spec fn rem(self) -> nat {
        if self.pos <= self.toks.len() {
            (self.toks.len() - self.pos) as nat
        } else {
            0
        }
    }

    /// The kind of the token under the cursor, trivia included, or `EOF`.
    pub open spec fn current(self) -> SyntaxKind {
        kind_at(self.toks, self.pos as int)
    }

    /// The kind of the next non-trivia token, or `EOF`.
    pub open spec fn peek(self) -> SyntaxKind {
        kind_at(self.toks, next_non_trivia(self.toks, self.pos as int))
    }

    /// The kind of the non-trivia token after the next one, or `EOF`.
    pub open spec fn peek1(self) -> SyntaxKind {
        kind_at(self.toks, next_non_trivia(self.toks, next_non_trivia(self.toks, self.pos as int) + 1))
    }

    /// Opens a node of kind `k` whose first child is the next one.
    pub open spec fn start(self, k: SyntaxKind) -> ParseState {
        ParseState { parents: self.parents.push((kind_code(k), self.children.len())), ..self }
    }

    /// Opens a node of kind `k` whose first child is the child at `cp`.
    pub open spec fn start_at(self, cp: nat, k: SyntaxKind) -> ParseState {
        ParseState { parents: self.parents.push((kind_code(k), cp)), ..self }
    }

    /// Closes the innermost open node: its children become one node.
    pub open spec fn finish(self) -> ParseState {
        let (k, f) = self.parents.last();
        ParseState {
            parents: self.parents.drop_last(),
            children: self.children.take(f as int).push(
                GreenElement::Node(k, self.children.skip(f as int)),
            ),
            ..self
        }
    }

    /// Appends the token under the cursor (empty at the end) and moves past it.
    pub open spec fn push_current(self) -> ParseState {
        let text = if self.pos < self.toks.len() {
            self.toks[self.pos as int].1
        } else {
            Seq::empty()
        };
        ParseState {
            children: self.children.push(GreenElement::Token(kind_code(self.current()), text)),
            pos: if self.pos < self.toks.len() {
                self.pos + 1
            } else {
                self.pos
            },
            ..self
        }
    }

    /// Records an error.
    pub open spec fn report(self, e: ParserError) -> ParseState {
        ParseState { errors: self.errors.push(e), ..self }
    }

    /// Appends the trivia tokens under the cursor.
    pub open spec fn skip_trivia(self) -> ParseState
        decreases self.rem(),
    {
        if self.pos < self.toks.len() && trivia_kind(self.toks[self.pos as int].0) {
            self.push_current().skip_trivia()
        } else {
            self
        }
    }

    /// Appends the trivia and then the next token, unless at the end.
    pub open spec fn bump(self) -> ParseState {
        if self.current() == SyntaxKind::EOF {
            self
        } else {
            self.skip_trivia().push_current()
        }
    }

    /// Records `e` and wraps the token under the cursor, if any, in an `ERROR` node.
    pub open spec fn error(self, e: ParserError) -> ParseState {
        let s = self.report(e);
        if s.current() != SyntaxKind::EOF {
            s.start(SyntaxKind::ERROR).bump().finish()
        } else {
            s
        }
    }

    /// Consumes a token of kind `k`, or reports the one found and wraps it.
    pub open spec fn expect(self, k: SyntaxKind) -> ParseState {
        let s = self.skip_trivia();
        if s.current() == k {
            s.bump()
        } else {
            s.error(ParserError::ExpectedFound { expected: k, found: s.current() })
        }
    }

    /// Consumes tokens up to the next one that ends the skipping.
    pub open spec fn skip_to_recovery(self, stmt: bool) -> ParseState
        decreases self.rem(),
    {
        if recovers(stmt, self.peek()) {
            self
        } else {
            let s = self.bump();
            if s.rem() < self.rem() {
                s.skip_to_recovery(stmt)
            } else {
                s
            }
        }
    }

    /// Consumes a token of kind `k`; otherwise reports it missing and wraps
    /// the tokens up to the next recovery point in an `ERROR` node.
    pub open spec fn expect_or_recover(self, k: SyntaxKind, stmt: bool) -> ParseState {
        if self.peek() == k {
            self.bump()
        } else {
            self.report(ParserError::Expected(k)).start(SyntaxKind::ERROR).skip_to_recovery(
                stmt,
            ).finish()
        }
    }
}

// ---------------------------------------------------------------------------
// Expressions
// ---------------------------------------------------------------------------

/// A node of kind `k` holding the next token.
pub open spec fn rule_operator(s: ParseState, k: SyntaxKind) -> ParseState {
    s.start(k).bump().finish()
}

/// `Name := Ident`
pub open spec fn rule_name(s: ParseState) -> ParseState {
    s.start(SyntaxKind::NAME).expect(SyntaxKind::IDENT).finish()
}

/// Binary expressions of level `lvl` (6 is `LOrExp`, 1 is `MulExp`), and
/// `UnaryExp` at level 0: an operand of the level below, then, while an
/// operator of this level follows, a `BINARY_EXPR` node that starts at the
/// first operand and holds the operator and the next operand.
pub open spec fn rule_binary(s: ParseState, lvl: nat) -> ParseState
    decreases s.rem(), 20 + 2 * lvl,
{
    if lvl == 0 {
        rule_unary(s)
    } else {
        let cp = s.children.len();
        let s1 = rule_binary(s, (lvl - 1) as nat);
        if s1.rem() <= s.rem() {
            rule_binary_tail(s1, cp, lvl)
        } else {
            s1
        }
    }
}

/// The operator-and-operand repetitions of a binary level.
pub open spec fn rule_binary_tail(s: ParseState, cp: nat, lvl: nat) -> ParseState
    decreases s.rem(), 19 + 2 * lvl,
{
    if lvl > 0 && binary_op_at(lvl, s.peek()) {
        let s1 = rule_operator(s.start_at(cp, SyntaxKind::BINARY_EXPR), SyntaxKind::BINARY_OP);
        let s2 = if s1.rem() <= s.rem() {
            rule_binary(s1, (lvl - 1) as nat)
        } else {
            s1
        };
        let s3 = s2.finish();
        if s3.rem() < s.rem() {
            rule_binary_tail(s3, cp, lvl)
        } else {
            s3
        }
    } else {
        s
    }
}

/// `UnaryExp := UnaryOp UnaryExp | PostfixExp`
pub open spec fn rule_unary(s: ParseState) -> ParseState
    decreases s.rem(), 10nat,
{
    if unary_op_kind(s.peek()) {
        let s1 = rule_operator(s.start(SyntaxKind::UNARY_EXPR), SyntaxKind::UNARY_OP);
        let s2 = if s1.rem() < s.rem() {
            rule_unary(s1)
        } else {
            s1
        };
        s2.finish()
    } else {
        rule_postfix(s)
    }
}

/// `PostfixExp := PrimaryExp { ('.' | '->') FieldAccess }`
pub open spec fn rule_postfix(s: ParseState) -> ParseState
    decreases s.rem(), 9nat,
{
    let cp = s.children.len();
    let s1 = rule_primary(s);
    if s1.rem() <= s.rem() {
        rule_postfix_tail(s1, cp)
    } else {
        s1
    }
}

/// The member accesses after a primary expression.
pub open spec fn rule_postfix_tail(s: ParseState, cp: nat) -> ParseState
    decreases s.rem(), 8nat,
{
    if postfix_op_kind(s.peek()) {
        let s1 = rule_operator(s.start_at(cp, SyntaxKind::POSTFIX_EXPR), SyntaxKind::POSTFIX_OP);
        let s2 = if s1.rem() <= s.rem() {
            rule_field_access(s1)
        } else {
            s1
        };
        let s3 = s2.finish();
        if s3.rem() < s.rem() {
            rule_postfix_tail(s3, cp)
        } else {
            s3
        }
    } else {
        s
    }
}

/// `FieldAccess := Name { '[' Expr ']' }`
pub open spec fn rule_field_access(s: ParseState) -> ParseState
    decreases s.rem(), 7nat,
{
    let s1 = rule_name(s.start(SyntaxKind::FIELD_ACCESS));
    let s2 = if s1.rem() <= s.rem() {
        rule_subscripts(s1)
    } else {
        s1
    };
    s2.finish()
}

/// `{ '[' Expr ']' }`
pub open spec fn rule_subscripts(s: ParseState) -> ParseState
    decreases s.rem(), 3nat,
{
    if s.peek() == SyntaxKind::L_BRACK {
        let s1 = s.bump();
        let s2 = if s1.rem() < s.rem() {
            rule_binary(s1, 6)
        } else {
            s1
        };
        let s3 = s2.expect_or_recover(SyntaxKind::R_BRACK, false);
        if s3.rem() < s.rem() {
            rule_subscripts(s3)
        } else {
            s3
        }
    } else {
        s
    }
}

/// `PrimaryExp := '(' Expr ')' | Number | LVal | CallExpr`
pub open spec fn rule_primary(s: ParseState) -> ParseState
    decreases s.rem(), 6nat,
{
    if s.peek() == SyntaxKind::L_PAREN {
        let s1 = s.start(SyntaxKind::PAREN_EXPR).expect_or_recover(SyntaxKind::L_PAREN, false);
        let s2 = if s1.rem() < s.rem() {
            rule_binary(s1, 6)
        } else {
            s1
        };
        s2.expect_or_recover(SyntaxKind::R_PAREN, false).finish()
    } else if number_kind(s.peek()) {
        s.start(SyntaxKind::LITERAL).bump().finish()
    } else {
        rule_lval_or_call(s)
    }
}

/// `CallExpr := Name '(' [FuncRParams] ')'` or `IndexVal := Name { '[' Expr ']' }`
pub open spec fn rule_lval_or_call(s: ParseState) -> ParseState
    decreases s.rem(), 4nat,
{
    let cp = s.children.len();
    let s1 = rule_name(s);
    if s1.peek() == SyntaxKind::L_PAREN {
        let s2 = s1.start_at(cp, SyntaxKind::CALL_EXPR).expect_or_recover(SyntaxKind::L_PAREN, false);
        let s3 = if s2.peek() != SyntaxKind::R_PAREN {
            if s2.rem() < s.rem() {
                rule_func_r_params(s2)
            } else {
                s2
            }
        } else {
            s2
        };
        s3.expect_or_recover(SyntaxKind::R_PAREN, false).finish()
    } else {
        let s2 = s1.start_at(cp, SyntaxKind::INDEX_VAL);
        let s3 = if s2.rem() <= s.rem() {
            rule_subscripts(s2)
        } else {
            s2
        };
        s3.finish()
    }
}

/// `FuncRParams := Expr { ',' Expr }`
pub open spec fn rule_func_r_params(s: ParseState) -> ParseState
    decreases s.rem(), 40nat,
{
    let s1 = rule_binary(s.start(SyntaxKind::FUNC_R_PARAMS), 6);
    let s2 = if s1.rem() <= s.rem() {
        rule_args_tail(s1)
    } else {
        s1
    };
    s2.finish()
}

/// `{ ',' Expr }`
pub open spec fn rule_args_tail(s: ParseState) -> ParseState
    decreases s.rem(), 39nat,
{
    if s.peek() == SyntaxKind::COMMA {
        let s1 = s.bump();
        let s2 = if s1.rem() < s.rem() {
            rule_binary(s1, 6)
        } else {
            s1
        };
        if s2.rem() < s.rem() {
            rule_args_tail(s2)
        } else {
            s2
        }
    } else {
        s
    }
}

// ---------------------------------------------------------------------------
// Statements
// ---------------------------------------------------------------------------

/// `Stmt := IfStmt | WhileStmt | BreakStmt | ContinueStmt | ReturnStmt | Block | ';'
///        | Expr '=' Expr ';' | Expr ';'`
pub open spec fn rule_statement(s: ParseState) -> ParseState
    decreases s.rem(), 2nat,
{
    let k = s.peek();
    if k == SyntaxKind::IF_KW {
        rule_if(s)
    } else if k == SyntaxKind::WHILE_KW {
        rule_while(s)
    } else if k == SyntaxKind::BREAK_KW {
        rule_keyword_stmt(s, SyntaxKind::BREAK_STMT, SyntaxKind::BREAK_KW)
    } else if k == SyntaxKind::CONTINUE_KW {
        rule_keyword_stmt(s, SyntaxKind::CONTINUE_STMT, SyntaxKind::CONTINUE_KW)
    } else if k == SyntaxKind::RETURN_KW {
        rule_return(s)
    } else if k == SyntaxKind::L_BRACE {
        rule_block(s)
    } else if k == SyntaxKind::SEMI {
        s.bump()
    } else {
        let cp = s.children.len();
        let s1 = rule_binary(s, 6);
        if s1.peek() == SyntaxKind::EQ {
            let s2 = rule_binary(s1.start_at(cp, SyntaxKind::ASSIGN_STMT).bump(), 6);
            s2.expect_or_recover(SyntaxKind::SEMI, true).finish()
        } else {
            s1.start_at(cp, SyntaxKind::EXPR_STMT).expect_or_recover(SyntaxKind::SEMI, true).finish()
        }
    }
}

/// `IfStmt := 'if' '(' Expr ')' Stmt ['else' Stmt]`
pub open spec fn rule_if(s: ParseState) -> ParseState
    decreases s.rem(), 1nat,
{
    let s1 = s.start(SyntaxKind::IF_STMT).expect_or_recover(SyntaxKind::IF_KW, true).expect_or_recover(
        SyntaxKind::L_PAREN,
        true,
    );
    let s2 = rule_binary(s1, 6).expect_or_recover(SyntaxKind::R_PAREN, true);
    let s3 = if s2.rem() < s.rem() {
        rule_statement(s2)
    } else {
        s2
    };
    let s4 = if s3.peek() == SyntaxKind::ELSE_KW {
        let t = s3.bump();
        if t.rem() < s.rem() {
            rule_statement(t)
        } else {
            t
        }
    } else {
        s3
    };
    s4.finish()
}

/// `WhileStmt := 'while' '(' Expr ')' Stmt`
pub open spec fn rule_while(s: ParseState) -> ParseState
    decreases s.rem(), 1nat,
{
    let s1 = s.start(SyntaxKind::WHILE_STMT).expect_or_recover(
        SyntaxKind::WHILE_KW,
        true,
    ).expect_or_recover(SyntaxKind::L_PAREN, true);
    let s2 = rule_binary(s1, 6).expect_or_recover(SyntaxKind::R_PAREN, true);
    let s3 = if s2.rem() < s.rem() {
        rule_statement(s2)
    } else {
        s2
    };
    s3.finish()
}

/// `BreakStmt := 'break' ';'` and `ContinueStmt := 'continue' ';'`
pub open spec fn rule_keyword_stmt(s: ParseState, node: SyntaxKind, kw: SyntaxKind) -> ParseState {
    s.start(node).expect_or_recover(kw, true).expect_or_recover(SyntaxKind::SEMI, true).finish()
}

/// `ReturnStmt := 'return' [Expr] ';'`
pub open spec fn rule_return(s: ParseState) -> ParseState {
    let s1 = s.start(SyntaxKind::RETURN_STMT).expect_or_recover(SyntaxKind::RETURN_KW, true);
    let s2 = if s1.peek() != SyntaxKind::SEMI {
        rule_binary(s1, 6)
    } else {
        s1
    };
    s2.expect_or_recover(SyntaxKind::SEMI, true).finish()
}

/// `Block := '{' {BlockItem} '}'`
pub open spec fn rule_block(s: ParseState) -> ParseState
    decreases s.rem(), 1nat,
{
    let s1 = s.start(SyntaxKind::BLOCK).expect(SyntaxKind::L_BRACE);
    let s2 = if s1.rem() < s.rem() {
        rule_block_items(s1)
    } else {
        s1
    };
    s2.expect(SyntaxKind::R_BRACE).finish()
}

/// `{BlockItem}`, up to a `}` or the end.
pub open spec fn rule_block_items(s: ParseState) -> ParseState
    decreases s.rem(), 4nat,
{
    if s.peek() == SyntaxKind::R_BRACE || s.peek() == SyntaxKind::EOF {
        s
    } else {
        let s1 = rule_block_item(s);
        if s1.rem() < s.rem() {
            rule_block_items(s1)
        } else {
            s1
        }
    }
}

/// `BlockItem := VarDecl | ConstDecl | Stmt`
pub open spec fn rule_block_item(s: ParseState) -> ParseState
    decreases s.rem(), 3nat,
{
    let k = s.peek();
    if k == SyntaxKind::INT_KW || k == SyntaxKind::FLOAT_KW || k == SyntaxKind::STRUCT_KW {
        let s1 = rule_var_def(rule_type(s.start(SyntaxKind::VAR_DECL)));
        rule_var_defs_tail(s1).expect(SyntaxKind::SEMI).finish()
    } else if k == SyntaxKind::CONST_KW {
        rule_const_decl(s)
    } else {
        rule_statement(s)
    }
}

// ---------------------------------------------------------------------------
// Declarations
// ---------------------------------------------------------------------------

/// `CompUnit := {ConstDecl | VarDecl | FuncDef}`, with all trivia kept.
pub open spec fn rule_root(s: ParseState) -> ParseState {
    rule_top_items(s.start(SyntaxKind::COMP_UNIT).skip_trivia()).finish()
}

/// The declarations and definitions of a unit, up to the end.
pub open spec fn rule_top_items(s: ParseState) -> ParseState
    decreases s.rem(),
{
    if s.peek() != SyntaxKind::EOF {
        let s1 = if s.peek() == SyntaxKind::CONST_KW {
            rule_const_decl(s)
        } else {
            rule_decl_or_func_def(s)
        };
        let s2 = s1.skip_trivia();
        if s2.rem() < s.rem() {
            rule_top_items(s2)
        } else {
            s2
        }
    } else {
        s
    }
}

/// `ConstDecl := 'const' Type ConstDef {',' ConstDef} ';'`
pub open spec fn rule_const_decl(s: ParseState) -> ParseState {
    let s1 = rule_const_def(rule_type(s.start(SyntaxKind::CONST_DECL).expect(SyntaxKind::CONST_KW)));
    rule_const_defs_tail(s1).expect(SyntaxKind::SEMI).finish()
}

/// `{',' ConstDef}`
pub open spec fn rule_const_defs_tail(s: ParseState) -> ParseState
    decreases s.rem(),
{
    if s.peek() == SyntaxKind::COMMA {
        let s1 = rule_const_def(s.bump());
        if s1.rem() < s.rem() {
            rule_const_defs_tail(s1)
        } else {
            s1
        }
    } else {
        s
    }
}

/// `ConstDef := [Pointer] ConstIndexVal '=' ConstInitVal`
pub open spec fn rule_const_def(s: ParseState) -> ParseState {
    let s1 = rule_const_index_val(rule_pointers(s.start(SyntaxKind::CONST_DEF)));
    rule_init_val(s1.expect(SyntaxKind::EQ), SyntaxKind::CONST_INIT_VAL, true).finish()
}

/// `{',' VarDef}`
pub open spec fn rule_var_defs_tail(s: ParseState) -> ParseState
    decreases s.rem(),
{
    if s.peek() == SyntaxKind::COMMA {
        let s1 = rule_var_def(s.bump());
        if s1.rem() < s.rem() {
            rule_var_defs_tail(s1)
        } else {
            s1
        }
    } else {
        s
    }
}

/// A function definition (`FUNC_DEF` with a `FUNC_TYPE`, a name and a body)
/// or a global variable declaration (`VAR_DECL` with its `VAR_DEF`s), told
/// apart by `void` or by a `(` after the name.
pub open spec fn rule_decl_or_func_def(s: ParseState) -> ParseState {
    let cp_start = s.children.len();
    if s.peek() == SyntaxKind::VOID_KW {
        let s1 = rule_pointers(
            s.start_at(cp_start, SyntaxKind::FUNC_DEF).start(SyntaxKind::FUNC_TYPE).bump(),
        ).finish();
        rule_func_def_body(rule_name(s1)).finish()
    } else {
        let s1 = rule_type(s);
        let cp_vardef = s1.children.len();
        let s2 = rule_pointers(s1);
        if s2.peek1() == SyntaxKind::L_PAREN {
            let s3 = s2.start_at(cp_start, SyntaxKind::FUNC_DEF).start_at(
                cp_start,
                SyntaxKind::FUNC_TYPE,
            ).finish();
            rule_func_def_body(rule_name(s3)).finish()
        } else {
            let s3 = rule_const_index_val(
                s2.start_at(cp_start, SyntaxKind::VAR_DECL).start_at(cp_vardef, SyntaxKind::VAR_DEF),
            );
            let s4 = if s3.peek() == SyntaxKind::EQ {
                rule_init_val(s3.bump(), SyntaxKind::INIT_VAL, false)
            } else {
                s3
            };
            rule_var_defs_tail(s4.finish()).expect(SyntaxKind::SEMI).finish()
        }
    }
}

/// `Pointer := '*' ['const'] {'*' ['const']}`, as one `POINTER` node if a `*` comes next.
pub open spec fn rule_pointers(s: ParseState) -> ParseState {
    if s.peek() != SyntaxKind::STAR {
        s
    } else {
        rule_stars(s.start(SyntaxKind::POINTER)).finish()
    }
}

/// `{'*' ['const']}`
pub open spec fn rule_stars(s: ParseState) -> ParseState
    decreases s.rem(),
{
    if s.peek() == SyntaxKind::STAR {
        let s1 = s.bump();
        let s2 = if s1.peek() == SyntaxKind::CONST_KW {
            s1.bump()
        } else {
            s1
        };
        if s2.rem() < s.rem() {
            rule_stars(s2)
        } else {
            s2
        }
    } else {
        s
    }
}

/// `'(' [FuncFParams] ')' Block` after a function's name.
pub open spec fn rule_func_def_body(s: ParseState) -> ParseState {
    let s1 = s.expect(SyntaxKind::L_PAREN);
    let s2 = if s1.peek() != SyntaxKind::R_PAREN {
        rule_func_f_params(s1)
    } else {
        s1
    };
    rule_block(s2.expect(SyntaxKind::R_PAREN))
}

/// `VarDef := [Pointer] ConstIndexVal ['=' InitVal]`
pub open spec fn rule_var_def(s: ParseState) -> ParseState {
    let s1 = rule_const_index_val(rule_pointers(s.start(SyntaxKind::VAR_DEF)));
    let s2 = if s1.peek() == SyntaxKind::EQ {
        rule_init_val(s1.bump(), SyntaxKind::INIT_VAL, false)
    } else {
        s1
    };
    s2.finish()
}

/// `Type := 'int' | 'float' | 'struct' Name`; anything else is reported.
pub open spec fn rule_type(s: ParseState) -> ParseState {
    let s1 = s.start(SyntaxKind::TYPE);
    let k = s1.peek();
    let s2 = if k == SyntaxKind::INT_KW || k == SyntaxKind::FLOAT_KW {
        s1.bump()
    } else if k == SyntaxKind::STRUCT_KW {
        rule_name(s1.bump())
    } else {
        s1.error(ParserError::ExpectedType { found: k })
    };
    s2.finish()
}

/// `InitVal := Expr | '{' [InitVal {',' InitVal}] '}'` as a node of kind
/// `kind`; a constant initializer holds a `ConstExp` (`AddExp`) in place of an `Expr`.
pub open spec fn rule_init_val(s: ParseState, kind: SyntaxKind, is_const: bool) -> ParseState
    decreases s.rem(), 1nat,
{
    let s1 = s.start(kind);
    let s2 = if s1.peek() == SyntaxKind::L_BRACE {
        let t = s1.bump();
        let t2 = if t.rem() < s.rem() {
            rule_init_items(t, kind, is_const)
        } else {
            t
        };
        t2.expect(SyntaxKind::R_BRACE)
    } else if is_const {
        rule_binary(s1, 2)
    } else {
        rule_binary(s1, 6)
    };
    s2.finish()
}

/// The initializers of a braced list, each with an optional `,` after it.
pub open spec fn rule_init_items(s: ParseState, kind: SyntaxKind, is_const: bool) -> ParseState
    decreases s.rem(), 2nat,
{
    if s.peek() == SyntaxKind::R_BRACE || s.peek() == SyntaxKind::EOF {
        s
    } else {
        let s1 = rule_init_val(s, kind, is_const);
        let s2 = if s1.peek() == SyntaxKind::COMMA {
            s1.bump()
        } else {
            s1
        };
        if s2.rem() < s.rem() {
            rule_init_items(s2, kind, is_const)
        } else {
            s2
        }
    }
}

/// `FuncFParams := FuncFParam {',' FuncFParam}`
pub open spec fn rule_func_f_params(s: ParseState) -> ParseState {
    rule_params_tail(rule_func_f_param(s.start(SyntaxKind::FUNC_F_PARAMS))).finish()
}

/// `{',' FuncFParam}`
pub open spec fn rule_params_tail(s: ParseState) -> ParseState
    decreases s.rem(),
{
    if s.peek() == SyntaxKind::COMMA {
        let s1 = rule_func_f_param(s.bump());
        if s1.rem() < s.rem() {
            rule_params_tail(s1)
        } else {
            s1
        }
    } else {
        s
    }
}

/// `FuncFParam := Type [Pointer] Name ['[' ']' {'[' ConstExp ']'}]`
pub open spec fn rule_func_f_param(s: ParseState) -> ParseState {
    let s1 = rule_name(rule_pointers(rule_type(s.start(SyntaxKind::FUNC_F_PARAM))));
    let s2 = if s1.peek() == SyntaxKind::L_BRACK {
        rule_const_subscripts(s1.bump().expect(SyntaxKind::R_BRACK))
    } else {
        s1
    };
    s2.finish()
}

/// `{'[' ConstExp ']'}`
pub open spec fn rule_const_subscripts(s: ParseState) -> ParseState
    decreases s.rem(),
{
    if s.peek() == SyntaxKind::L_BRACK {
        let s1 = rule_binary(s.bump(), 2).expect(SyntaxKind::R_BRACK);
        if s1.rem() < s.rem() {
            rule_const_subscripts(s1)
        } else {
            s1
        }
    } else {
        s
    }
}

/// `ConstIndexVal := Name {'[' ConstExp ']'}`
pub open spec fn rule_const_index_val(s: ParseState) -> ParseState {
    rule_const_subscripts(rule_name(s.start(SyntaxKind::CONST_INDEX_VAL))).finish()
}

} // verus!
