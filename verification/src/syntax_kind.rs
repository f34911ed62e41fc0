//! The kinds of tokens and nodes of the concrete syntax tree.

use vstd::prelude::*;

verus! {

/// Every kind of token and syntax node.
#[allow(non_camel_case_types)]
#[allow(clippy::upper_case_acronyms)]
#[derive(Debug, Clone, Copy, PartialEq, Eq, PartialOrd, Ord, Hash, Structural)]
pub enum SyntaxKind {
    WHITESPACE,
    NEWLINE,
    COMMENT_LINE,
    COMMENT_BLOCK,
    CONST_KW,
    INT_KW,
    FLOAT_KW,
    VOID_KW,
    IF_KW,
    ELSE_KW,
    WHILE_KW,
    BREAK_KW,
    CONTINUE_KW,
    RETURN_KW,
    STRUCT_KW,
    IMPL_KW,
    EQ,
    SEMI,
    COMMA,
    L_BRACE,
    R_BRACE,
    L_PAREN,
    R_PAREN,
    L_BRACK,
    R_BRACK,
    STAR,
    DOT,
    ARROW,
    PLUS,
    MINUS,
    SLASH,
    PERCENT,
    EQEQ,
    NEQ,
    LT,
    GT,
    LTEQ,
    GTEQ,
    AMPAMP,
    PIPEPIPE,
    BANG,
    AMP,
    IDENT,
    INT_LITERAL,
    FLOAT_LITERAL,
    ERROR,
    EOF,
    COMP_UNIT,
    CONST_DECL,
    CONST_DEF,
    CONST_INDEX_VAL,
    CONST_INIT_VAL,
    VAR_DECL,
    VAR_DEF,
    INIT_VAL,
    FUNC_DEF,
    FUNC_TYPE,
    FUNC_F_PARAMS,
    FUNC_F_PARAM,
    FUNC_R_PARAMS,
    BLOCK,
    ASSIGN_STMT,
    EXPR_STMT,
    IF_STMT,
    WHILE_STMT,
    BREAK_STMT,
    CONTINUE_STMT,
    RETURN_STMT,
    BINARY_EXPR,
    UNARY_EXPR,
    POSTFIX_EXPR,
    POSTFIX_OP,
    FIELD_ACCESS,
    PAREN_EXPR,
    DEREF_EXPR,
    INDEX_VAL,
    CALL_EXPR,
    LITERAL,
    BINARY_OP,
    UNARY_OP,
    TYPE,
    NAME,
    POINTER,
}

/// The number under which a kind is stored in a green tree.
pub open spec fn kind_code(k: SyntaxKind) -> u16 {
    match k {
        SyntaxKind::WHITESPACE => 0u16,
        SyntaxKind::NEWLINE => 1u16,
        SyntaxKind::COMMENT_LINE => 2u16,
        SyntaxKind::COMMENT_BLOCK => 3u16,
        SyntaxKind::CONST_KW => 4u16,
        SyntaxKind::INT_KW => 5u16,
        SyntaxKind::FLOAT_KW => 6u16,
        SyntaxKind::VOID_KW => 7u16,
        SyntaxKind::IF_KW => 8u16,
        SyntaxKind::ELSE_KW => 9u16,
        SyntaxKind::WHILE_KW => 10u16,
        SyntaxKind::BREAK_KW => 11u16,
        SyntaxKind::CONTINUE_KW => 12u16,
        SyntaxKind::RETURN_KW => 13u16,
        SyntaxKind::STRUCT_KW => 14u16,
        SyntaxKind::IMPL_KW => 15u16,
        SyntaxKind::EQ => 16u16,
        SyntaxKind::SEMI => 17u16,
        SyntaxKind::COMMA => 18u16,
        SyntaxKind::L_BRACE => 19u16,
        SyntaxKind::R_BRACE => 20u16,
        SyntaxKind::L_PAREN => 21u16,
        SyntaxKind::R_PAREN => 22u16,
        SyntaxKind::L_BRACK => 23u16,
        SyntaxKind::R_BRACK => 24u16,
        SyntaxKind::STAR => 25u16,
        SyntaxKind::DOT => 26u16,
        SyntaxKind::ARROW => 27u16,
        SyntaxKind::PLUS => 28u16,
        SyntaxKind::MINUS => 29u16,
        SyntaxKind::SLASH => 30u16,
        SyntaxKind::PERCENT => 31u16,
        SyntaxKind::EQEQ => 32u16,
        SyntaxKind::NEQ => 33u16,
        SyntaxKind::LT => 34u16,
        SyntaxKind::GT => 35u16,
        SyntaxKind::LTEQ => 36u16,
        SyntaxKind::GTEQ => 37u16,
        SyntaxKind::AMPAMP => 38u16,
        SyntaxKind::PIPEPIPE => 39u16,
        SyntaxKind::BANG => 40u16,
        SyntaxKind::AMP => 41u16,
        SyntaxKind::IDENT => 42u16,
        SyntaxKind::INT_LITERAL => 43u16,
        SyntaxKind::FLOAT_LITERAL => 44u16,
        SyntaxKind::ERROR => 45u16,
        SyntaxKind::EOF => 46u16,
        SyntaxKind::COMP_UNIT => 47u16,
        SyntaxKind::CONST_DECL => 48u16,
        SyntaxKind::CONST_DEF => 49u16,
        SyntaxKind::CONST_INDEX_VAL => 50u16,
        SyntaxKind::CONST_INIT_VAL => 51u16,
        SyntaxKind::VAR_DECL => 52u16,
        SyntaxKind::VAR_DEF => 53u16,
        SyntaxKind::INIT_VAL => 54u16,
        SyntaxKind::FUNC_DEF => 55u16,
        SyntaxKind::FUNC_TYPE => 56u16,
        SyntaxKind::FUNC_F_PARAMS => 57u16,
        SyntaxKind::FUNC_F_PARAM => 58u16,
        SyntaxKind::FUNC_R_PARAMS => 59u16,
        SyntaxKind::BLOCK => 60u16,
        SyntaxKind::ASSIGN_STMT => 61u16,
        SyntaxKind::EXPR_STMT => 62u16,
        SyntaxKind::IF_STMT => 63u16,
        SyntaxKind::WHILE_STMT => 64u16,
        SyntaxKind::BREAK_STMT => 65u16,
        SyntaxKind::CONTINUE_STMT => 66u16,
        SyntaxKind::RETURN_STMT => 67u16,
        SyntaxKind::BINARY_EXPR => 68u16,
        SyntaxKind::UNARY_EXPR => 69u16,
        SyntaxKind::POSTFIX_EXPR => 70u16,
        SyntaxKind::POSTFIX_OP => 71u16,
        SyntaxKind::FIELD_ACCESS => 72u16,
        SyntaxKind::PAREN_EXPR => 73u16,
        SyntaxKind::DEREF_EXPR => 74u16,
        SyntaxKind::INDEX_VAL => 75u16,
        SyntaxKind::CALL_EXPR => 76u16,
        SyntaxKind::LITERAL => 77u16,
        SyntaxKind::BINARY_OP => 78u16,
        SyntaxKind::UNARY_OP => 79u16,
        SyntaxKind::TYPE => 80u16,
        SyntaxKind::NAME => 81u16,
        SyntaxKind::POINTER => 82u16,
    }
}

/// The kind stored under a number, if any.
pub open spec fn kind_of_code(c: u16) -> Option<SyntaxKind> {
    if c == 0u16 {
        Some(SyntaxKind::WHITESPACE)
    } else if c == 1u16 {
        Some(SyntaxKind::NEWLINE)
    } else if c == 2u16 {
        Some(SyntaxKind::COMMENT_LINE)
    } else if c == 3u16 {
        Some(SyntaxKind::COMMENT_BLOCK)
    } else if c == 4u16 {
        Some(SyntaxKind::CONST_KW)
    } else if c == 5u16 {
        Some(SyntaxKind::INT_KW)
    } else if c == 6u16 {
        Some(SyntaxKind::FLOAT_KW)
    } else if c == 7u16 {
        Some(SyntaxKind::VOID_KW)
    } else if c == 8u16 {
        Some(SyntaxKind::IF_KW)
    } else if c == 9u16 {
        Some(SyntaxKind::ELSE_KW)
    } else if c == 10u16 {
        Some(SyntaxKind::WHILE_KW)
    } else if c == 11u16 {
        Some(SyntaxKind::BREAK_KW)
    } else if c == 12u16 {
        Some(SyntaxKind::CONTINUE_KW)
    } else if c == 13u16 {
        Some(SyntaxKind::RETURN_KW)
    } else if c == 14u16 {
        Some(SyntaxKind::STRUCT_KW)
    } else if c == 15u16 {
        Some(SyntaxKind::IMPL_KW)
    } else if c == 16u16 {
        Some(SyntaxKind::EQ)
    } else if c == 17u16 {
        Some(SyntaxKind::SEMI)
    } else if c == 18u16 {
        Some(SyntaxKind::COMMA)
    } else if c == 19u16 {
        Some(SyntaxKind::L_BRACE)
    } else if c == 20u16 {
        Some(SyntaxKind::R_BRACE)
    } else if c == 21u16 {
        Some(SyntaxKind::L_PAREN)
    } else if c == 22u16 {
        Some(SyntaxKind::R_PAREN)
    } else if c == 23u16 {
        Some(SyntaxKind::L_BRACK)
    } else if c == 24u16 {
        Some(SyntaxKind::R_BRACK)
    } else if c == 25u16 {
        Some(SyntaxKind::STAR)
    } else if c == 26u16 {
        Some(SyntaxKind::DOT)
    } else if c == 27u16 {
        Some(SyntaxKind::ARROW)
    } else if c == 28u16 {
        Some(SyntaxKind::PLUS)
    } else if c == 29u16 {
        Some(SyntaxKind::MINUS)
    } else if c == 30u16 {
        Some(SyntaxKind::SLASH)
    } else if c == 31u16 {
        Some(SyntaxKind::PERCENT)
    } else if c == 32u16 {
        Some(SyntaxKind::EQEQ)
    } else if c == 33u16 {
        Some(SyntaxKind::NEQ)
    } else if c == 34u16 {
        Some(SyntaxKind::LT)
    } else if c == 35u16 {
        Some(SyntaxKind::GT)
    } else if c == 36u16 {
        Some(SyntaxKind::LTEQ)
    } else if c == 37u16 {
        Some(SyntaxKind::GTEQ)
    } else if c == 38u16 {
        Some(SyntaxKind::AMPAMP)
    } else if c == 39u16 {
        Some(SyntaxKind::PIPEPIPE)
    } else if c == 40u16 {
        Some(SyntaxKind::BANG)
    } else if c == 41u16 {
        Some(SyntaxKind::AMP)
    } else if c == 42u16 {
        Some(SyntaxKind::IDENT)
    } else if c == 43u16 {
        Some(SyntaxKind::INT_LITERAL)
    } else if c == 44u16 {
        Some(SyntaxKind::FLOAT_LITERAL)
    } else if c == 45u16 {
        Some(SyntaxKind::ERROR)
    } else if c == 46u16 {
        Some(SyntaxKind::EOF)
    } else if c == 47u16 {
        Some(SyntaxKind::COMP_UNIT)
    } else if c == 48u16 {
        Some(SyntaxKind::CONST_DECL)
    } else if c == 49u16 {
        Some(SyntaxKind::CONST_DEF)
    } else if c == 50u16 {
        Some(SyntaxKind::CONST_INDEX_VAL)
    } else if c == 51u16 {
        Some(SyntaxKind::CONST_INIT_VAL)
    } else if c == 52u16 {
        Some(SyntaxKind::VAR_DECL)
    } else if c == 53u16 {
        Some(SyntaxKind::VAR_DEF)
    } else if c == 54u16 {
        Some(SyntaxKind::INIT_VAL)
    } else if c == 55u16 {
        Some(SyntaxKind::FUNC_DEF)
    } else if c == 56u16 {
        Some(SyntaxKind::FUNC_TYPE)
    } else if c == 57u16 {
        Some(SyntaxKind::FUNC_F_PARAMS)
    } else if c == 58u16 {
        Some(SyntaxKind::FUNC_F_PARAM)
    } else if c == 59u16 {
        Some(SyntaxKind::FUNC_R_PARAMS)
    } else if c == 60u16 {
        Some(SyntaxKind::BLOCK)
    } else if c == 61u16 {
        Some(SyntaxKind::ASSIGN_STMT)
    } else if c == 62u16 {
        Some(SyntaxKind::EXPR_STMT)
    } else if c == 63u16 {
        Some(SyntaxKind::IF_STMT)
    } else if c == 64u16 {
        Some(SyntaxKind::WHILE_STMT)
    } else if c == 65u16 {
        Some(SyntaxKind::BREAK_STMT)
    } else if c == 66u16 {
        Some(SyntaxKind::CONTINUE_STMT)
    } else if c == 67u16 {
        Some(SyntaxKind::RETURN_STMT)
    } else if c == 68u16 {
        Some(SyntaxKind::BINARY_EXPR)
    } else if c == 69u16 {
        Some(SyntaxKind::UNARY_EXPR)
    } else if c == 70u16 {
        Some(SyntaxKind::POSTFIX_EXPR)
    } else if c == 71u16 {
        Some(SyntaxKind::POSTFIX_OP)
    } else if c == 72u16 {
        Some(SyntaxKind::FIELD_ACCESS)
    } else if c == 73u16 {
        Some(SyntaxKind::PAREN_EXPR)
    } else if c == 74u16 {
        Some(SyntaxKind::DEREF_EXPR)
    } else if c == 75u16 {
        Some(SyntaxKind::INDEX_VAL)
    } else if c == 76u16 {
        Some(SyntaxKind::CALL_EXPR)
    } else if c == 77u16 {
        Some(SyntaxKind::LITERAL)
    } else if c == 78u16 {
        Some(SyntaxKind::BINARY_OP)
    } else if c == 79u16 {
        Some(SyntaxKind::UNARY_OP)
    } else if c == 80u16 {
        Some(SyntaxKind::TYPE)
    } else if c == 81u16 {
        Some(SyntaxKind::NAME)
    } else if c == 82u16 {
        Some(SyntaxKind::POINTER)
    } else {
        None
    }
}

impl SyntaxKind {
    /// The number of this kind in a green tree.
    pub fn code(self) -> (r: u16)
        ensures
            r == kind_code(self),
    {
        match self {
            SyntaxKind::WHITESPACE => 0,
            SyntaxKind::NEWLINE => 1,
            SyntaxKind::COMMENT_LINE => 2,
            SyntaxKind::COMMENT_BLOCK => 3,
            SyntaxKind::CONST_KW => 4,
            SyntaxKind::INT_KW => 5,
            SyntaxKind::FLOAT_KW => 6,
            SyntaxKind::VOID_KW => 7,
            SyntaxKind::IF_KW => 8,
            SyntaxKind::ELSE_KW => 9,
            SyntaxKind::WHILE_KW => 10,
            SyntaxKind::BREAK_KW => 11,
            SyntaxKind::CONTINUE_KW => 12,
            SyntaxKind::RETURN_KW => 13,
            SyntaxKind::STRUCT_KW => 14,
            SyntaxKind::IMPL_KW => 15,
            SyntaxKind::EQ => 16,
            SyntaxKind::SEMI => 17,
            SyntaxKind::COMMA => 18,
            SyntaxKind::L_BRACE => 19,
            SyntaxKind::R_BRACE => 20,
            SyntaxKind::L_PAREN => 21,
            SyntaxKind::R_PAREN => 22,
            SyntaxKind::L_BRACK => 23,
            SyntaxKind::R_BRACK => 24,
            SyntaxKind::STAR => 25,
            SyntaxKind::DOT => 26,
            SyntaxKind::ARROW => 27,
            SyntaxKind::PLUS => 28,
            SyntaxKind::MINUS => 29,
            SyntaxKind::SLASH => 30,
            SyntaxKind::PERCENT => 31,
            SyntaxKind::EQEQ => 32,
            SyntaxKind::NEQ => 33,
            SyntaxKind::LT => 34,
            SyntaxKind::GT => 35,
            SyntaxKind::LTEQ => 36,
            SyntaxKind::GTEQ => 37,
            SyntaxKind::AMPAMP => 38,
            SyntaxKind::PIPEPIPE => 39,
            SyntaxKind::BANG => 40,
            SyntaxKind::AMP => 41,
            SyntaxKind::IDENT => 42,
            SyntaxKind::INT_LITERAL => 43,
            SyntaxKind::FLOAT_LITERAL => 44,
            SyntaxKind::ERROR => 45,
            SyntaxKind::EOF => 46,
            SyntaxKind::COMP_UNIT => 47,
            SyntaxKind::CONST_DECL => 48,
            SyntaxKind::CONST_DEF => 49,
            SyntaxKind::CONST_INDEX_VAL => 50,
            SyntaxKind::CONST_INIT_VAL => 51,
            SyntaxKind::VAR_DECL => 52,
            SyntaxKind::VAR_DEF => 53,
            SyntaxKind::INIT_VAL => 54,
            SyntaxKind::FUNC_DEF => 55,
            SyntaxKind::FUNC_TYPE => 56,
            SyntaxKind::FUNC_F_PARAMS => 57,
            SyntaxKind::FUNC_F_PARAM => 58,
            SyntaxKind::FUNC_R_PARAMS => 59,
            SyntaxKind::BLOCK => 60,
            SyntaxKind::ASSIGN_STMT => 61,
            SyntaxKind::EXPR_STMT => 62,
            SyntaxKind::IF_STMT => 63,
            SyntaxKind::WHILE_STMT => 64,
            SyntaxKind::BREAK_STMT => 65,
            SyntaxKind::CONTINUE_STMT => 66,
            SyntaxKind::RETURN_STMT => 67,
            SyntaxKind::BINARY_EXPR => 68,
            SyntaxKind::UNARY_EXPR => 69,
            SyntaxKind::POSTFIX_EXPR => 70,
            SyntaxKind::POSTFIX_OP => 71,
            SyntaxKind::FIELD_ACCESS => 72,
            SyntaxKind::PAREN_EXPR => 73,
            SyntaxKind::DEREF_EXPR => 74,
            SyntaxKind::INDEX_VAL => 75,
            SyntaxKind::CALL_EXPR => 76,
            SyntaxKind::LITERAL => 77,
            SyntaxKind::BINARY_OP => 78,
            SyntaxKind::UNARY_OP => 79,
            SyntaxKind::TYPE => 80,
            SyntaxKind::NAME => 81,
            SyntaxKind::POINTER => 82,
        }
    }

    /// The kind that a green-tree number stands for.
    pub fn from_code(c: u16) -> (r: Option<SyntaxKind>)
        ensures
            r == kind_of_code(c),
    {
        if c == 0 {
            Some(SyntaxKind::WHITESPACE)
        } else if c == 1 {
            Some(SyntaxKind::NEWLINE)
        } else if c == 2 {
            Some(SyntaxKind::COMMENT_LINE)
        } else if c == 3 {
            Some(SyntaxKind::COMMENT_BLOCK)
        } else if c == 4 {
            Some(SyntaxKind::CONST_KW)
        } else if c == 5 {
            Some(SyntaxKind::INT_KW)
        } else if c == 6 {
            Some(SyntaxKind::FLOAT_KW)
        } else if c == 7 {
            Some(SyntaxKind::VOID_KW)
        } else if c == 8 {
            Some(SyntaxKind::IF_KW)
        } else if c == 9 {
            Some(SyntaxKind::ELSE_KW)
        } else if c == 10 {
            Some(SyntaxKind::WHILE_KW)
        } else if c == 11 {
            Some(SyntaxKind::BREAK_KW)
        } else if c == 12 {
            Some(SyntaxKind::CONTINUE_KW)
        } else if c == 13 {
            Some(SyntaxKind::RETURN_KW)
        } else if c == 14 {
            Some(SyntaxKind::STRUCT_KW)
        } else if c == 15 {
            Some(SyntaxKind::IMPL_KW)
        } else if c == 16 {
            Some(SyntaxKind::EQ)
        } else if c == 17 {
            Some(SyntaxKind::SEMI)
        } else if c == 18 {
            Some(SyntaxKind::COMMA)
        } else if c == 19 {
            Some(SyntaxKind::L_BRACE)
        } else if c == 20 {
            Some(SyntaxKind::R_BRACE)
        } else if c == 21 {
            Some(SyntaxKind::L_PAREN)
        } else if c == 22 {
            Some(SyntaxKind::R_PAREN)
        } else if c == 23 {
            Some(SyntaxKind::L_BRACK)
        } else if c == 24 {
            Some(SyntaxKind::R_BRACK)
        } else if c == 25 {
            Some(SyntaxKind::STAR)
        } else if c == 26 {
            Some(SyntaxKind::DOT)
        } else if c == 27 {
            Some(SyntaxKind::ARROW)
        } else if c == 28 {
            Some(SyntaxKind::PLUS)
        } else if c == 29 {
            Some(SyntaxKind::MINUS)
        } else if c == 30 {
            Some(SyntaxKind::SLASH)
        } else if c == 31 {
            Some(SyntaxKind::PERCENT)
        } else if c == 32 {
            Some(SyntaxKind::EQEQ)
        } else if c == 33 {
            Some(SyntaxKind::NEQ)
        } else if c == 34 {
            Some(SyntaxKind::LT)
        } else if c == 35 {
            Some(SyntaxKind::GT)
        } else if c == 36 {
            Some(SyntaxKind::LTEQ)
        } else if c == 37 {
            Some(SyntaxKind::GTEQ)
        } else if c == 38 {
            Some(SyntaxKind::AMPAMP)
        } else if c == 39 {
            Some(SyntaxKind::PIPEPIPE)
        } else if c == 40 {
            Some(SyntaxKind::BANG)
        } else if c == 41 {
            Some(SyntaxKind::AMP)
        } else if c == 42 {
            Some(SyntaxKind::IDENT)
        } else if c == 43 {
            Some(SyntaxKind::INT_LITERAL)
        } else if c == 44 {
            Some(SyntaxKind::FLOAT_LITERAL)
        } else if c == 45 {
            Some(SyntaxKind::ERROR)
        } else if c == 46 {
            Some(SyntaxKind::EOF)
        } else if c == 47 {
            Some(SyntaxKind::COMP_UNIT)
        } else if c == 48 {
            Some(SyntaxKind::CONST_DECL)
        } else if c == 49 {
            Some(SyntaxKind::CONST_DEF)
        } else if c == 50 {
            Some(SyntaxKind::CONST_INDEX_VAL)
        } else if c == 51 {
            Some(SyntaxKind::CONST_INIT_VAL)
        } else if c == 52 {
            Some(SyntaxKind::VAR_DECL)
        } else if c == 53 {
            Some(SyntaxKind::VAR_DEF)
        } else if c == 54 {
            Some(SyntaxKind::INIT_VAL)
        } else if c == 55 {
            Some(SyntaxKind::FUNC_DEF)
        } else if c == 56 {
            Some(SyntaxKind::FUNC_TYPE)
        } else if c == 57 {
            Some(SyntaxKind::FUNC_F_PARAMS)
        } else if c == 58 {
            Some(SyntaxKind::FUNC_F_PARAM)
        } else if c == 59 {
            Some(SyntaxKind::FUNC_R_PARAMS)
        } else if c == 60 {
            Some(SyntaxKind::BLOCK)
        } else if c == 61 {
            Some(SyntaxKind::ASSIGN_STMT)
        } else if c == 62 {
            Some(SyntaxKind::EXPR_STMT)
        } else if c == 63 {
            Some(SyntaxKind::IF_STMT)
        } else if c == 64 {
            Some(SyntaxKind::WHILE_STMT)
        } else if c == 65 {
            Some(SyntaxKind::BREAK_STMT)
        } else if c == 66 {
            Some(SyntaxKind::CONTINUE_STMT)
        } else if c == 67 {
            Some(SyntaxKind::RETURN_STMT)
        } else if c == 68 {
            Some(SyntaxKind::BINARY_EXPR)
        } else if c == 69 {
            Some(SyntaxKind::UNARY_EXPR)
        } else if c == 70 {
            Some(SyntaxKind::POSTFIX_EXPR)
        } else if c == 71 {
            Some(SyntaxKind::POSTFIX_OP)
        } else if c == 72 {
            Some(SyntaxKind::FIELD_ACCESS)
        } else if c == 73 {
            Some(SyntaxKind::PAREN_EXPR)
        } else if c == 74 {
            Some(SyntaxKind::DEREF_EXPR)
        } else if c == 75 {
            Some(SyntaxKind::INDEX_VAL)
        } else if c == 76 {
            Some(SyntaxKind::CALL_EXPR)
        } else if c == 77 {
            Some(SyntaxKind::LITERAL)
        } else if c == 78 {
            Some(SyntaxKind::BINARY_OP)
        } else if c == 79 {
            Some(SyntaxKind::UNARY_OP)
        } else if c == 80 {
            Some(SyntaxKind::TYPE)
        } else if c == 81 {
            Some(SyntaxKind::NAME)
        } else if c == 82 {
            Some(SyntaxKind::POINTER)
        } else {
            None
        }
    }

}

/// Whitespace, newlines and comments.
pub open spec fn trivia_kind(k: SyntaxKind) -> bool {
    k == SyntaxKind::WHITESPACE || k == SyntaxKind::NEWLINE || k == SyntaxKind::COMMENT_LINE || k == SyntaxKind::COMMENT_BLOCK
}

/// Operators that may stand before an operand: `+ - ! & *`.
pub open spec fn unary_op_kind(k: SyntaxKind) -> bool {
    k == SyntaxKind::PLUS || k == SyntaxKind::MINUS || k == SyntaxKind::BANG || k == SyntaxKind::AMP || k == SyntaxKind::STAR
}

/// Member access operators `.` and `->`.
pub open spec fn postfix_op_kind(k: SyntaxKind) -> bool {
    k == SyntaxKind::DOT || k == SyntaxKind::ARROW
}

/// Integer and floating-point literals.
pub open spec fn number_kind(k: SyntaxKind) -> bool {
    k == SyntaxKind::INT_LITERAL || k == SyntaxKind::FLOAT_LITERAL
}

/// Tokens at which the parser stops skipping after a broken expression.
pub open spec fn expr_recovery_kind(k: SyntaxKind) -> bool {
    k == SyntaxKind::SEMI || k == SyntaxKind::R_BRACE || k == SyntaxKind::R_PAREN || k == SyntaxKind::R_BRACK || k == SyntaxKind::COMMA || k == SyntaxKind::EOF
}

/// Tokens at which the parser stops skipping after a broken statement.
pub open spec fn stmt_recovery_kind(k: SyntaxKind) -> bool {
    k == SyntaxKind::SEMI || k == SyntaxKind::R_BRACE || k == SyntaxKind::IF_KW || k == SyntaxKind::WHILE_KW || k == SyntaxKind::RETURN_KW || k == SyntaxKind::INT_KW || k == SyntaxKind::FLOAT_KW || k == SyntaxKind::CONST_KW || k == SyntaxKind::EOF
}

/// Tokens at which the parser stops skipping after a broken declaration.
pub open spec fn decl_recovery_kind(k: SyntaxKind) -> bool {
    k == SyntaxKind::IF_KW || k == SyntaxKind::WHILE_KW || k == SyntaxKind::RETURN_KW || k == SyntaxKind::INT_KW || k == SyntaxKind::FLOAT_KW || k == SyntaxKind::CONST_KW || k == SyntaxKind::STRUCT_KW || k == SyntaxKind::VOID_KW || k == SyntaxKind::EOF || k == SyntaxKind::SEMI || k == SyntaxKind::R_BRACE
}

impl SyntaxKind {
    /// Whitespace, newlines and comments.
    pub fn is_trivia(self) -> (r: bool)
        ensures
            r == trivia_kind(self),
    {
        matches!(
            self,
            SyntaxKind::WHITESPACE
                | SyntaxKind::NEWLINE
                | SyntaxKind::COMMENT_LINE
                | SyntaxKind::COMMENT_BLOCK
        )
    }

    /// Operators that may stand before an operand: `+ - ! & *`.
    pub fn is_unary_op(self) -> (r: bool)
        ensures
            r == unary_op_kind(self),
    {
        matches!(
            self,
            SyntaxKind::PLUS
                | SyntaxKind::MINUS
                | SyntaxKind::BANG
                | SyntaxKind::AMP
                | SyntaxKind::STAR
        )
    }

    /// Member access operators `.` and `->`.
    pub fn is_postfix_op(self) -> (r: bool)
        ensures
            r == postfix_op_kind(self),
    {
        matches!(
            self,
            SyntaxKind::DOT
                | SyntaxKind::ARROW
        )
    }

    /// Integer and floating-point literals.
    pub fn is_number(self) -> (r: bool)
        ensures
            r == number_kind(self),
    {
        matches!(
            self,
            SyntaxKind::INT_LITERAL
                | SyntaxKind::FLOAT_LITERAL
        )
    }

    /// Tokens at which the parser stops skipping after a broken expression.
    pub fn is_expr_recovery(self) -> (r: bool)
        ensures
            r == expr_recovery_kind(self),
    {
        matches!(
            self,
            SyntaxKind::SEMI
                | SyntaxKind::R_BRACE
                | SyntaxKind::R_PAREN
                | SyntaxKind::R_BRACK
                | SyntaxKind::COMMA
                | SyntaxKind::EOF
        )
    }

    /// Tokens at which the parser stops skipping after a broken statement.
    pub fn is_stmt_recovery(self) -> (r: bool)
        ensures
            r == stmt_recovery_kind(self),
    {
        matches!(
            self,
            SyntaxKind::SEMI
                | SyntaxKind::R_BRACE
                | SyntaxKind::IF_KW
                | SyntaxKind::WHILE_KW
                | SyntaxKind::RETURN_KW
                | SyntaxKind::INT_KW
                | SyntaxKind::FLOAT_KW
                | SyntaxKind::CONST_KW
                | SyntaxKind::EOF
        )
    }

    /// Tokens at which the parser stops skipping after a broken declaration.
    pub fn is_decl_recovery(self) -> (r: bool)
        ensures
            r == decl_recovery_kind(self),
    {
        matches!(
            self,
            SyntaxKind::IF_KW
                | SyntaxKind::WHILE_KW
                | SyntaxKind::RETURN_KW
                | SyntaxKind::INT_KW
                | SyntaxKind::FLOAT_KW
                | SyntaxKind::CONST_KW
                | SyntaxKind::STRUCT_KW
                | SyntaxKind::VOID_KW
                | SyntaxKind::EOF
                | SyntaxKind::SEMI
                | SyntaxKind::R_BRACE
        )
    }

}

/// A token as the lexer recognises it, before it becomes a syntax kind.
#[allow(non_camel_case_types)]
#[allow(clippy::upper_case_acronyms)]
#[derive(Debug, Clone, Copy, PartialEq, Eq, Structural)]
pub enum Token {
    WHITESPACE,
    NEWLINE,
    COMMENT_LINE,
    COMMENT_BLOCK,
    CONST_KW,
    INT_KW,
    FLOAT_KW,
    VOID_KW,
    IF_KW,
    ELSE_KW,
    WHILE_KW,
    BREAK_KW,
    CONTINUE_KW,
    RETURN_KW,
    STRUCT_KW,
    IMPL_KW,
    EQ,
    SEMI,
    COMMA,
    L_BRACE,
    R_BRACE,
    L_PAREN,
    R_PAREN,
    L_BRACK,
    R_BRACK,
    STAR,
    DOT,
    ARROW,
    PLUS,
    MINUS,
    SLASH,
    PERCENT,
    EQEQ,
    NEQ,
    LT,
    GT,
    LTEQ,
    GTEQ,
    AMPAMP,
    PIPEPIPE,
    BANG,
    AMP,
    IDENT,
    INT_LITERAL,
    FLOAT_LITERAL,
}

/// The syntax kind that carries the same name as a token.
pub open spec fn token_kind(t: Token) -> SyntaxKind {
    match t {
        Token::WHITESPACE => SyntaxKind::WHITESPACE,
        Token::NEWLINE => SyntaxKind::NEWLINE,
        Token::COMMENT_LINE => SyntaxKind::COMMENT_LINE,
        Token::COMMENT_BLOCK => SyntaxKind::COMMENT_BLOCK,
        Token::CONST_KW => SyntaxKind::CONST_KW,
        Token::INT_KW => SyntaxKind::INT_KW,
        Token::FLOAT_KW => SyntaxKind::FLOAT_KW,
        Token::VOID_KW => SyntaxKind::VOID_KW,
        Token::IF_KW => SyntaxKind::IF_KW,
        Token::ELSE_KW => SyntaxKind::ELSE_KW,
        Token::WHILE_KW => SyntaxKind::WHILE_KW,
        Token::BREAK_KW => SyntaxKind::BREAK_KW,
        Token::CONTINUE_KW => SyntaxKind::CONTINUE_KW,
        Token::RETURN_KW => SyntaxKind::RETURN_KW,
        Token::STRUCT_KW => SyntaxKind::STRUCT_KW,
        Token::IMPL_KW => SyntaxKind::IMPL_KW,
        Token::EQ => SyntaxKind::EQ,
        Token::SEMI => SyntaxKind::SEMI,
        Token::COMMA => SyntaxKind::COMMA,
        Token::L_BRACE => SyntaxKind::L_BRACE,
        Token::R_BRACE => SyntaxKind::R_BRACE,
        Token::L_PAREN => SyntaxKind::L_PAREN,
        Token::R_PAREN => SyntaxKind::R_PAREN,
        Token::L_BRACK => SyntaxKind::L_BRACK,
        Token::R_BRACK => SyntaxKind::R_BRACK,
        Token::STAR => SyntaxKind::STAR,
        Token::DOT => SyntaxKind::DOT,
        Token::ARROW => SyntaxKind::ARROW,
        Token::PLUS => SyntaxKind::PLUS,
        Token::MINUS => SyntaxKind::MINUS,
        Token::SLASH => SyntaxKind::SLASH,
        Token::PERCENT => SyntaxKind::PERCENT,
        Token::EQEQ => SyntaxKind::EQEQ,
        Token::NEQ => SyntaxKind::NEQ,
        Token::LT => SyntaxKind::LT,
        Token::GT => SyntaxKind::GT,
        Token::LTEQ => SyntaxKind::LTEQ,
        Token::GTEQ => SyntaxKind::GTEQ,
        Token::AMPAMP => SyntaxKind::AMPAMP,
        Token::PIPEPIPE => SyntaxKind::PIPEPIPE,
        Token::BANG => SyntaxKind::BANG,
        Token::AMP => SyntaxKind::AMP,
        Token::IDENT => SyntaxKind::IDENT,
        Token::INT_LITERAL => SyntaxKind::INT_LITERAL,
        Token::FLOAT_LITERAL => SyntaxKind::FLOAT_LITERAL,
    }
}

impl From<Token> for SyntaxKind {
    fn from(token: Token) -> (r: SyntaxKind) {
        match token {
            Token::WHITESPACE => SyntaxKind::WHITESPACE,
            Token::NEWLINE => SyntaxKind::NEWLINE,
            Token::COMMENT_LINE => SyntaxKind::COMMENT_LINE,
            Token::COMMENT_BLOCK => SyntaxKind::COMMENT_BLOCK,
            Token::CONST_KW => SyntaxKind::CONST_KW,
            Token::INT_KW => SyntaxKind::INT_KW,
            Token::FLOAT_KW => SyntaxKind::FLOAT_KW,
            Token::VOID_KW => SyntaxKind::VOID_KW,
            Token::IF_KW => SyntaxKind::IF_KW,
            Token::ELSE_KW => SyntaxKind::ELSE_KW,
            Token::WHILE_KW => SyntaxKind::WHILE_KW,
            Token::BREAK_KW => SyntaxKind::BREAK_KW,
            Token::CONTINUE_KW => SyntaxKind::CONTINUE_KW,
            Token::RETURN_KW => SyntaxKind::RETURN_KW,
            Token::STRUCT_KW => SyntaxKind::STRUCT_KW,
            Token::IMPL_KW => SyntaxKind::IMPL_KW,
            Token::EQ => SyntaxKind::EQ,
            Token::SEMI => SyntaxKind::SEMI,
            Token::COMMA => SyntaxKind::COMMA,
            Token::L_BRACE => SyntaxKind::L_BRACE,
            Token::R_BRACE => SyntaxKind::R_BRACE,
            Token::L_PAREN => SyntaxKind::L_PAREN,
            Token::R_PAREN => SyntaxKind::R_PAREN,
            Token::L_BRACK => SyntaxKind::L_BRACK,
            Token::R_BRACK => SyntaxKind::R_BRACK,
            Token::STAR => SyntaxKind::STAR,
            Token::DOT => SyntaxKind::DOT,
            Token::ARROW => SyntaxKind::ARROW,
            Token::PLUS => SyntaxKind::PLUS,
            Token::MINUS => SyntaxKind::MINUS,
            Token::SLASH => SyntaxKind::SLASH,
            Token::PERCENT => SyntaxKind::PERCENT,
            Token::EQEQ => SyntaxKind::EQEQ,
            Token::NEQ => SyntaxKind::NEQ,
            Token::LT => SyntaxKind::LT,
            Token::GT => SyntaxKind::GT,
            Token::LTEQ => SyntaxKind::LTEQ,
            Token::GTEQ => SyntaxKind::GTEQ,
            Token::AMPAMP => SyntaxKind::AMPAMP,
            Token::PIPEPIPE => SyntaxKind::PIPEPIPE,
            Token::BANG => SyntaxKind::BANG,
            Token::AMP => SyntaxKind::AMP,
            Token::IDENT => SyntaxKind::IDENT,
            Token::INT_LITERAL => SyntaxKind::INT_LITERAL,
            Token::FLOAT_LITERAL => SyntaxKind::FLOAT_LITERAL,
        }
    }
}

impl vstd::std_specs::convert::FromSpecImpl<Token> for SyntaxKind {
    open spec fn obeys_from_spec() -> bool {
        true
    }

    open spec fn from_spec(token: Token) -> SyntaxKind {
        token_kind(token)
    }
}

/// Decoding a kind's number gives the kind back.
pub proof fn lemma_kind_code_roundtrip(k: SyntaxKind)
    ensures
        kind_of_code(kind_code(k)) == Some(k),
{
}

/// The name of a syntax kind: the name of its variant, as `Debug` writes it.
pub open spec fn kind_name(k: SyntaxKind) -> Seq<char> {
    match k {
        SyntaxKind::WHITESPACE => "WHITESPACE"@,
        SyntaxKind::NEWLINE => "NEWLINE"@,
        SyntaxKind::COMMENT_LINE => "COMMENT_LINE"@,
        SyntaxKind::COMMENT_BLOCK => "COMMENT_BLOCK"@,
        SyntaxKind::CONST_KW => "CONST_KW"@,
        SyntaxKind::INT_KW => "INT_KW"@,
        SyntaxKind::FLOAT_KW => "FLOAT_KW"@,
        SyntaxKind::VOID_KW => "VOID_KW"@,
        SyntaxKind::IF_KW => "IF_KW"@,
        SyntaxKind::ELSE_KW => "ELSE_KW"@,
        SyntaxKind::WHILE_KW => "WHILE_KW"@,
        SyntaxKind::BREAK_KW => "BREAK_KW"@,
        SyntaxKind::CONTINUE_KW => "CONTINUE_KW"@,
        SyntaxKind::RETURN_KW => "RETURN_KW"@,
        SyntaxKind::STRUCT_KW => "STRUCT_KW"@,
        SyntaxKind::IMPL_KW => "IMPL_KW"@,
        SyntaxKind::EQ => "EQ"@,
        SyntaxKind::SEMI => "SEMI"@,
        SyntaxKind::COMMA => "COMMA"@,
        SyntaxKind::L_BRACE => "L_BRACE"@,
        SyntaxKind::R_BRACE => "R_BRACE"@,
        SyntaxKind::L_PAREN => "L_PAREN"@,
        SyntaxKind::R_PAREN => "R_PAREN"@,
        SyntaxKind::L_BRACK => "L_BRACK"@,
        SyntaxKind::R_BRACK => "R_BRACK"@,
        SyntaxKind::STAR => "STAR"@,
        SyntaxKind::DOT => "DOT"@,
        SyntaxKind::ARROW => "ARROW"@,
        SyntaxKind::PLUS => "PLUS"@,
        SyntaxKind::MINUS => "MINUS"@,
        SyntaxKind::SLASH => "SLASH"@,
        SyntaxKind::PERCENT => "PERCENT"@,
        SyntaxKind::EQEQ => "EQEQ"@,
        SyntaxKind::NEQ => "NEQ"@,
        SyntaxKind::LT => "LT"@,
        SyntaxKind::GT => "GT"@,
        SyntaxKind::LTEQ => "LTEQ"@,
        SyntaxKind::GTEQ => "GTEQ"@,
        SyntaxKind::AMPAMP => "AMPAMP"@,
        SyntaxKind::PIPEPIPE => "PIPEPIPE"@,
        SyntaxKind::BANG => "BANG"@,
        SyntaxKind::AMP => "AMP"@,
        SyntaxKind::IDENT => "IDENT"@,
        SyntaxKind::INT_LITERAL => "INT_LITERAL"@,
        SyntaxKind::FLOAT_LITERAL => "FLOAT_LITERAL"@,
        SyntaxKind::ERROR => "ERROR"@,
        SyntaxKind::EOF => "EOF"@,
        SyntaxKind::COMP_UNIT => "COMP_UNIT"@,
        SyntaxKind::CONST_DECL => "CONST_DECL"@,
        SyntaxKind::CONST_DEF => "CONST_DEF"@,
        SyntaxKind::CONST_INDEX_VAL => "CONST_INDEX_VAL"@,
        SyntaxKind::CONST_INIT_VAL => "CONST_INIT_VAL"@,
        SyntaxKind::VAR_DECL => "VAR_DECL"@,
        SyntaxKind::VAR_DEF => "VAR_DEF"@,
        SyntaxKind::INIT_VAL => "INIT_VAL"@,
        SyntaxKind::FUNC_DEF => "FUNC_DEF"@,
        SyntaxKind::FUNC_TYPE => "FUNC_TYPE"@,
        SyntaxKind::FUNC_F_PARAMS => "FUNC_F_PARAMS"@,
        SyntaxKind::FUNC_F_PARAM => "FUNC_F_PARAM"@,
        SyntaxKind::FUNC_R_PARAMS => "FUNC_R_PARAMS"@,
        SyntaxKind::BLOCK => "BLOCK"@,
        SyntaxKind::ASSIGN_STMT => "ASSIGN_STMT"@,
        SyntaxKind::EXPR_STMT => "EXPR_STMT"@,
        SyntaxKind::IF_STMT => "IF_STMT"@,
        SyntaxKind::WHILE_STMT => "WHILE_STMT"@,
        SyntaxKind::BREAK_STMT => "BREAK_STMT"@,
        SyntaxKind::CONTINUE_STMT => "CONTINUE_STMT"@,
        SyntaxKind::RETURN_STMT => "RETURN_STMT"@,
        SyntaxKind::BINARY_EXPR => "BINARY_EXPR"@,
        SyntaxKind::UNARY_EXPR => "UNARY_EXPR"@,
        SyntaxKind::POSTFIX_EXPR => "POSTFIX_EXPR"@,
        SyntaxKind::POSTFIX_OP => "POSTFIX_OP"@,
        SyntaxKind::FIELD_ACCESS => "FIELD_ACCESS"@,
        SyntaxKind::PAREN_EXPR => "PAREN_EXPR"@,
        SyntaxKind::DEREF_EXPR => "DEREF_EXPR"@,
        SyntaxKind::INDEX_VAL => "INDEX_VAL"@,
        SyntaxKind::CALL_EXPR => "CALL_EXPR"@,
        SyntaxKind::LITERAL => "LITERAL"@,
        SyntaxKind::BINARY_OP => "BINARY_OP"@,
        SyntaxKind::UNARY_OP => "UNARY_OP"@,
        SyntaxKind::TYPE => "TYPE"@,
        SyntaxKind::NAME => "NAME"@,
        SyntaxKind::POINTER => "POINTER"@,
    }
}

impl SyntaxKind {
    /// The name of the kind, as `kind_name` says.
    pub fn name(&self) -> (r: &'static str)
        ensures
            r@ == kind_name(*self),
    {
        match self {
            SyntaxKind::WHITESPACE => "WHITESPACE",
            SyntaxKind::NEWLINE => "NEWLINE",
            SyntaxKind::COMMENT_LINE => "COMMENT_LINE",
            SyntaxKind::COMMENT_BLOCK => "COMMENT_BLOCK",
            SyntaxKind::CONST_KW => "CONST_KW",
            SyntaxKind::INT_KW => "INT_KW",
            SyntaxKind::FLOAT_KW => "FLOAT_KW",
            SyntaxKind::VOID_KW => "VOID_KW",
            SyntaxKind::IF_KW => "IF_KW",
            SyntaxKind::ELSE_KW => "ELSE_KW",
            SyntaxKind::WHILE_KW => "WHILE_KW",
            SyntaxKind::BREAK_KW => "BREAK_KW",
            SyntaxKind::CONTINUE_KW => "CONTINUE_KW",
            SyntaxKind::RETURN_KW => "RETURN_KW",
            SyntaxKind::STRUCT_KW => "STRUCT_KW",
            SyntaxKind::IMPL_KW => "IMPL_KW",
            SyntaxKind::EQ => "EQ",
            SyntaxKind::SEMI => "SEMI",
            SyntaxKind::COMMA => "COMMA",
            SyntaxKind::L_BRACE => "L_BRACE",
            SyntaxKind::R_BRACE => "R_BRACE",
            SyntaxKind::L_PAREN => "L_PAREN",
            SyntaxKind::R_PAREN => "R_PAREN",
            SyntaxKind::L_BRACK => "L_BRACK",
            SyntaxKind::R_BRACK => "R_BRACK",
            SyntaxKind::STAR => "STAR",
            SyntaxKind::DOT => "DOT",
            SyntaxKind::ARROW => "ARROW",
            SyntaxKind::PLUS => "PLUS",
            SyntaxKind::MINUS => "MINUS",
            SyntaxKind::SLASH => "SLASH",
            SyntaxKind::PERCENT => "PERCENT",
            SyntaxKind::EQEQ => "EQEQ",
            SyntaxKind::NEQ => "NEQ",
            SyntaxKind::LT => "LT",
            SyntaxKind::GT => "GT",
            SyntaxKind::LTEQ => "LTEQ",
            SyntaxKind::GTEQ => "GTEQ",
            SyntaxKind::AMPAMP => "AMPAMP",
            SyntaxKind::PIPEPIPE => "PIPEPIPE",
            SyntaxKind::BANG => "BANG",
            SyntaxKind::AMP => "AMP",
            SyntaxKind::IDENT => "IDENT",
            SyntaxKind::INT_LITERAL => "INT_LITERAL",
            SyntaxKind::FLOAT_LITERAL => "FLOAT_LITERAL",
            SyntaxKind::ERROR => "ERROR",
            SyntaxKind::EOF => "EOF",
            SyntaxKind::COMP_UNIT => "COMP_UNIT",
            SyntaxKind::CONST_DECL => "CONST_DECL",
            SyntaxKind::CONST_DEF => "CONST_DEF",
            SyntaxKind::CONST_INDEX_VAL => "CONST_INDEX_VAL",
            SyntaxKind::CONST_INIT_VAL => "CONST_INIT_VAL",
            SyntaxKind::VAR_DECL => "VAR_DECL",
            SyntaxKind::VAR_DEF => "VAR_DEF",
            SyntaxKind::INIT_VAL => "INIT_VAL",
            SyntaxKind::FUNC_DEF => "FUNC_DEF",
            SyntaxKind::FUNC_TYPE => "FUNC_TYPE",
            SyntaxKind::FUNC_F_PARAMS => "FUNC_F_PARAMS",
            SyntaxKind::FUNC_F_PARAM => "FUNC_F_PARAM",
            SyntaxKind::FUNC_R_PARAMS => "FUNC_R_PARAMS",
            SyntaxKind::BLOCK => "BLOCK",
            SyntaxKind::ASSIGN_STMT => "ASSIGN_STMT",
            SyntaxKind::EXPR_STMT => "EXPR_STMT",
            SyntaxKind::IF_STMT => "IF_STMT",
            SyntaxKind::WHILE_STMT => "WHILE_STMT",
            SyntaxKind::BREAK_STMT => "BREAK_STMT",
            SyntaxKind::CONTINUE_STMT => "CONTINUE_STMT",
            SyntaxKind::RETURN_STMT => "RETURN_STMT",
            SyntaxKind::BINARY_EXPR => "BINARY_EXPR",
            SyntaxKind::UNARY_EXPR => "UNARY_EXPR",
            SyntaxKind::POSTFIX_EXPR => "POSTFIX_EXPR",
            SyntaxKind::POSTFIX_OP => "POSTFIX_OP",
            SyntaxKind::FIELD_ACCESS => "FIELD_ACCESS",
            SyntaxKind::PAREN_EXPR => "PAREN_EXPR",
            SyntaxKind::DEREF_EXPR => "DEREF_EXPR",
            SyntaxKind::INDEX_VAL => "INDEX_VAL",
            SyntaxKind::CALL_EXPR => "CALL_EXPR",
            SyntaxKind::LITERAL => "LITERAL",
            SyntaxKind::BINARY_OP => "BINARY_OP",
            SyntaxKind::UNARY_OP => "UNARY_OP",
            SyntaxKind::TYPE => "TYPE",
            SyntaxKind::NAME => "NAME",
            SyntaxKind::POINTER => "POINTER",
        }
    }
}

} // verus!
