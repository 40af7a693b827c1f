//! The recursive-descent parser: consumes the lexer's token sequence and
//! builds one syntax tree per file.  Every syntactic violation surfaces
//! as a parser-error value carrying a message and the offending span;
//! a caller may stop at the first error or accumulate errors across
//! files.

use vstd::prelude::*;
use vstd::string::StringExecFns;
use crate::compiler::FileId;
use crate::error::TalkError;
use crate::lexer::{
    retag_span, retag_token, retag_tokens, views_of, wf_token_seq, Span, Token, TokenContents,
    TokenKind, TokenModel,
};
use crate::parsed_types::{
    statement_views, function_views, lemma_statement_views_push, lemma_function_views_push,
    BlockModel, ExpressionModel, FunctionModel, ParsedBlock, ParsedExpression, ParsedFunction,
    ParsedProgram, ParsedStatement, ProgramModel, StatementModel,
};

verus! {

/// The outcome of one grammar production at the mathematical level: the
/// parsed value together with the cursor after it, or a message and the
/// offending span.
pub ghost enum ParseOutcome<T> {
    Success(T, int),
    Failure(Seq<char>, Span),
}

/// The span carried by nodes the parser gives no position of their own.
pub open spec fn zero_span() -> Span {
    Span { file_id: 0, start: 0, end: 0 }
}

/// The display name of a token kind, used in mismatch messages.
pub open spec fn spec_token_name(k: TokenKind) -> Seq<char> {
    match k {
        TokenKind::Identifier(_) => "identifier"@,
        TokenKind::Number(_) => "number"@,
        TokenKind::StrLit(_) => "string"@,
        TokenKind::Fun => "fun"@,
        TokenKind::Let => "let"@,
        TokenKind::If => "if"@,
        TokenKind::Else => "else"@,
        TokenKind::While => "while"@,
        TokenKind::For => "for"@,
        TokenKind::Return => "return"@,
        TokenKind::True => "true"@,
        TokenKind::False => "false"@,
        TokenKind::Semicolon => ";"@,
        TokenKind::LParen => "("@,
        TokenKind::RParen => ")"@,
        TokenKind::LBrace => "{"@,
        TokenKind::RBrace => "}"@,
        TokenKind::Plus => "+"@,
        TokenKind::Minus => "-"@,
        TokenKind::Equal => "="@,
        TokenKind::Comma => ","@,
        TokenKind::Mut => "mut"@,
        TokenKind::Colon => ":"@,
        TokenKind::ThinArrow => "->"@,
        TokenKind::Garbage => "garbage"@,
        TokenKind::EOF => "end of input"@,
    }
}

/// The message of a token mismatch, naming both the expected and the
/// actual token.
pub open spec fn spec_mismatch_msg(expected: TokenKind, actual: TokenKind) -> Seq<char> {
    "Expected token "@ + spec_token_name(expected) + ", found "@ + spec_token_name(actual)
}

/// The error is a parser error carrying exactly this message and span.
pub open spec fn is_parser_error(e: TalkError, m: Seq<char>, sp: Span) -> bool {
    match e {
        TalkError::ParserError(ms, s) => ms@ == m && s == sp,
        _ => false,
    }
}

/// Matching one fixed token: on the expected contents the cursor moves
/// one token forward; on anything else the parse fails, naming both
/// tokens.
pub open spec fn spec_match_token(ts: Seq<TokenModel>, pos: int, expected: TokenKind) -> ParseOutcome<
    (),
>
    recommends
        0 <= pos < ts.len(),
{
    if ts[pos].contents == expected {
        ParseOutcome::Success((), pos + 1)
    } else {
        ParseOutcome::Failure(spec_mismatch_msg(expected, ts[pos].contents), ts[pos].span)
    }
}

/// An expression: only a numeric literal is accepted today.
pub open spec fn spec_parse_expression(ts: Seq<TokenModel>, pos: int) -> ParseOutcome<
    ExpressionModel,
>
    recommends
        0 <= pos < ts.len(),
{
    match ts[pos].contents {
        TokenKind::Number(n) => ParseOutcome::Success(
            ExpressionModel::NumericLiteral(n, ts[pos].span),
            pos + 1,
        ),
        _ => ParseOutcome::Failure("Unknown expression"@, ts[pos].span),
    }
}

/// A statement: only `return` followed by an expression is accepted
/// today.  The statement's span is the merge of the `return` keyword's
/// span and the expression's span.
pub open spec fn spec_parse_statement(ts: Seq<TokenModel>, pos: int) -> ParseOutcome<
    StatementModel,
>
    recommends
        0 <= pos < ts.len(),
{
    if ts[pos].contents is Return {
        match spec_parse_expression(ts, pos + 1) {
            ParseOutcome::Success(e, p) => ParseOutcome::Success(
                StatementModel::Return(e, Span::spec_merge(ts[pos].span, e.span())),
                p,
            ),
            ParseOutcome::Failure(m, sp) => ParseOutcome::Failure(m, sp),
        }
    } else {
        ParseOutcome::Failure("Unknown statement type"@, ts[pos].span)
    }
}

proof fn lemma_parse_statement_pos(ts: Seq<TokenModel>, pos: int)
    requires
        wf_token_seq(ts),
        0 <= pos < ts.len(),
    ensures
        spec_parse_statement(ts, pos) matches ParseOutcome::Success(_, p) ==> pos + 2 == p
            && p < ts.len(),
{
    if spec_parse_statement(ts, pos) is Success {
        assert(ts[pos].contents != TokenKind::EOF);
        assert(pos < ts.len() - 1);
        assert(ts[pos + 1].contents != TokenKind::EOF);
        assert(pos + 1 < ts.len() - 1);
    }
}

/// The statements of a block's interior, up to the first closing brace
/// or the end of input.
pub open spec fn spec_parse_stmts(ts: Seq<TokenModel>, pos: int) -> ParseOutcome<
    Seq<StatementModel>,
>
    decreases ts.len() - pos
        when wf_token_seq(ts) && 0 <= pos < ts.len()
        via spec_parse_stmts_decreases
{
    if ts[pos].contents is RBrace || ts[pos].contents is EOF {
        ParseOutcome::Success(Seq::empty(), pos)
    } else {
        match spec_parse_statement(ts, pos) {
            ParseOutcome::Success(st, p) => match spec_parse_stmts(ts, p) {
                ParseOutcome::Success(sts, p2) => ParseOutcome::Success(seq![st] + sts, p2),
                ParseOutcome::Failure(m, sp) => ParseOutcome::Failure(m, sp),
            },
            ParseOutcome::Failure(m, sp) => ParseOutcome::Failure(m, sp),
        }
    }
}

#[via_fn]
proof fn spec_parse_stmts_decreases(ts: Seq<TokenModel>, pos: int) {
    if wf_token_seq(ts) && 0 <= pos < ts.len() {
        lemma_parse_statement_pos(ts, pos);
    }
}

proof fn lemma_parse_stmts_pos(ts: Seq<TokenModel>, pos: int)
    requires
        wf_token_seq(ts),
        0 <= pos < ts.len(),
    ensures
        spec_parse_stmts(ts, pos) matches ParseOutcome::Success(_, p) ==> pos <= p < ts.len() && (
        ts[p].contents is RBrace || ts[p].contents is EOF),
    decreases ts.len() - pos,
{
    if ts[pos].contents is RBrace || ts[pos].contents is EOF {
    } else {
        lemma_parse_statement_pos(ts, pos);
        match spec_parse_statement(ts, pos) {
            ParseOutcome::Success(st, p) => {
                lemma_parse_stmts_pos(ts, p);
            },
            ParseOutcome::Failure(m, sp) => {},
        }
    }
}

/// The parameter list's interior: comma separators, `mut` markers, and
/// `name : i32` pairs, up to the closing parenthesis (consumed) or the
/// end of input (left in place, to fail on the following expectation).
pub open spec fn spec_parse_params(ts: Seq<TokenModel>, pos: int) -> ParseOutcome<()>
    decreases ts.len() - pos
        when wf_token_seq(ts) && 0 <= pos < ts.len()
        via spec_parse_params_decreases
{
    match ts[pos].contents {
        TokenKind::RParen => ParseOutcome::Success((), pos + 1),
        TokenKind::EOF => ParseOutcome::Success((), pos),
        TokenKind::Comma => spec_parse_params(ts, pos + 1),
        TokenKind::Mut => spec_parse_params(ts, pos + 1),
        TokenKind::Identifier(_) => match spec_match_token(ts, pos + 1, TokenKind::Colon) {
            ParseOutcome::Success(_, p1) => match spec_match_token(
                ts,
                p1,
                TokenKind::Identifier("i32"@),
            ) {
                ParseOutcome::Success(_, p2) => spec_parse_params(ts, p2),
                ParseOutcome::Failure(m, sp) => ParseOutcome::Failure(m, sp),
            },
            ParseOutcome::Failure(m, sp) => ParseOutcome::Failure(m, sp),
        },
        _ => ParseOutcome::Failure("Expected identifier"@, ts[pos].span),
    }
}

#[via_fn]
proof fn spec_parse_params_decreases(ts: Seq<TokenModel>, pos: int) {
    if wf_token_seq(ts) && 0 <= pos < ts.len() {
        match ts[pos].contents {
            TokenKind::Comma => {
                assert(pos < ts.len() - 1);
            },
            TokenKind::Mut => {
                assert(pos < ts.len() - 1);
            },
            TokenKind::Identifier(_) => {
                assert(pos < ts.len() - 1);
                if ts[pos + 1].contents == TokenKind::Colon {
                    assert(pos + 1 < ts.len() - 1);
                    if ts[pos + 2].contents == TokenKind::Identifier("i32"@) {
                        assert(pos + 2 < ts.len() - 1);
                    }
                }
            },
            _ => {},
        }
    }
}

proof fn lemma_parse_params_pos(ts: Seq<TokenModel>, pos: int)
    requires
        wf_token_seq(ts),
        0 <= pos < ts.len(),
    ensures
        spec_parse_params(ts, pos) matches ParseOutcome::Success(_, p) ==> pos <= p < ts.len(),
    decreases ts.len() - pos,
{
    match ts[pos].contents {
        TokenKind::RParen => {
            assert(pos < ts.len() - 1);
        },
        TokenKind::Comma => {
            lemma_parse_params_pos(ts, pos + 1);
        },
        TokenKind::Mut => {
            lemma_parse_params_pos(ts, pos + 1);
        },
        TokenKind::Identifier(_) => {
            if ts[pos + 1].contents == TokenKind::Colon {
                if ts[pos + 2].contents == TokenKind::Identifier("i32"@) {
                    assert(pos + 2 < ts.len() - 1);
                    lemma_parse_params_pos(ts, pos + 3);
                }
            }
        },
        _ => {},
    }
}

/// A block: `{`, any number of statements, `}`.  Reaching the end of
/// input inside a block fails on the mandatory closing-brace match.
pub open spec fn spec_parse_block(ts: Seq<TokenModel>, pos: int) -> ParseOutcome<BlockModel>
    recommends
        wf_token_seq(ts),
        0 <= pos < ts.len(),
{
    match spec_match_token(ts, pos, TokenKind::LBrace) {
        ParseOutcome::Success(_, p) => match spec_parse_stmts(ts, p) {
            ParseOutcome::Success(sts, p2) => match spec_match_token(ts, p2, TokenKind::RBrace) {
                ParseOutcome::Success(_, p3) => ParseOutcome::Success(
                    BlockModel { statements: sts, span: zero_span() },
                    p3,
                ),
                ParseOutcome::Failure(m, sp) => ParseOutcome::Failure(m, sp),
            },
            ParseOutcome::Failure(m, sp) => ParseOutcome::Failure(m, sp),
        },
        ParseOutcome::Failure(m, sp) => ParseOutcome::Failure(m, sp),
    }
}

proof fn lemma_parse_block_pos(ts: Seq<TokenModel>, pos: int)
    requires
        wf_token_seq(ts),
        0 <= pos < ts.len(),
    ensures
        spec_parse_block(ts, pos) matches ParseOutcome::Success(_, p) ==> pos < p < ts.len(),
{
    if ts[pos].contents == TokenKind::LBrace {
        assert(pos < ts.len() - 1);
        lemma_parse_stmts_pos(ts, pos + 1);
        match spec_parse_stmts(ts, pos + 1) {
            ParseOutcome::Success(sts, p2) => {
                if ts[p2].contents == TokenKind::RBrace {
                    assert(p2 < ts.len() - 1);
                }
            },
            ParseOutcome::Failure(m, sp) => {},
        }
    }
}

/// A function: `fun` IDENT `(` ParamList `)` `->` IDENT Block, where the
/// return type identifier must be the literal text `i32`.
pub open spec fn spec_parse_function(ts: Seq<TokenModel>, pos: int) -> ParseOutcome<FunctionModel>
    recommends
        wf_token_seq(ts),
        0 <= pos < ts.len(),
{
    match spec_match_token(ts, pos, TokenKind::Fun) {
        ParseOutcome::Success(_, p0) => match ts[p0].contents {
            TokenKind::Identifier(name) => match spec_match_token(ts, p0 + 1, TokenKind::LParen) {
                ParseOutcome::Success(_, p1) => match spec_parse_params(ts, p1) {
                    ParseOutcome::Success(_, p2) => match spec_match_token(
                        ts,
                        p2,
                        TokenKind::ThinArrow,
                    ) {
                        ParseOutcome::Success(_, p3) => match spec_match_token(
                            ts,
                            p3,
                            TokenKind::Identifier("i32"@),
                        ) {
                            ParseOutcome::Success(_, p4) => match spec_parse_block(ts, p4) {
                                ParseOutcome::Success(b, p5) => ParseOutcome::Success(
                                    FunctionModel {
                                        name,
                                        name_span: ts[p0].span,
                                        block: b,
                                        span: zero_span(),
                                    },
                                    p5,
                                ),
                                ParseOutcome::Failure(m, sp) => ParseOutcome::Failure(m, sp),
                            },
                            ParseOutcome::Failure(m, sp) => ParseOutcome::Failure(m, sp),
                        },
                        ParseOutcome::Failure(m, sp) => ParseOutcome::Failure(m, sp),
                    },
                    ParseOutcome::Failure(m, sp) => ParseOutcome::Failure(m, sp),
                },
                ParseOutcome::Failure(m, sp) => ParseOutcome::Failure(m, sp),
            },
            _ => ParseOutcome::Failure("Expected identifier"@, ts[p0].span),
        },
        ParseOutcome::Failure(m, sp) => ParseOutcome::Failure(m, sp),
    }
}

proof fn lemma_parse_function_pos(ts: Seq<TokenModel>, pos: int)
    requires
        wf_token_seq(ts),
        0 <= pos < ts.len(),
    ensures
        spec_parse_function(ts, pos) matches ParseOutcome::Success(_, p) ==> pos < p < ts.len(),
{
    if ts[pos].contents == TokenKind::Fun {
        assert(pos < ts.len() - 1);
        let p0 = pos + 1;
        if ts[p0].contents is Identifier {
            assert(p0 < ts.len() - 1);
            if ts[p0 + 1].contents == TokenKind::LParen {
                assert(p0 + 1 < ts.len() - 1);
                lemma_parse_params_pos(ts, p0 + 2);
                match spec_parse_params(ts, p0 + 2) {
                    ParseOutcome::Success(_, p2) => {
                        if ts[p2].contents == TokenKind::ThinArrow {
                            assert(p2 < ts.len() - 1);
                            if ts[p2 + 1].contents == TokenKind::Identifier("i32"@) {
                                assert(p2 + 1 < ts.len() - 1);
                                lemma_parse_block_pos(ts, p2 + 2);
                            }
                        }
                    },
                    ParseOutcome::Failure(m, sp) => {},
                }
            }
        }
    }
}

/// The functions of a file, in order, up to the end of input.  Any
/// top-level token other than `fun` is a fatal parse error.
pub open spec fn spec_parse_functions(ts: Seq<TokenModel>, pos: int) -> ParseOutcome<
    Seq<FunctionModel>,
>
    decreases ts.len() - pos
        when wf_token_seq(ts) && 0 <= pos < ts.len()
        via spec_parse_functions_decreases
{
    if ts[pos].contents is EOF {
        ParseOutcome::Success(Seq::empty(), pos)
    } else if ts[pos].contents is Fun {
        match spec_parse_function(ts, pos) {
            ParseOutcome::Success(f, p) => match spec_parse_functions(ts, p) {
                ParseOutcome::Success(fs, p2) => ParseOutcome::Success(seq![f] + fs, p2),
                ParseOutcome::Failure(m, sp) => ParseOutcome::Failure(m, sp),
            },
            ParseOutcome::Failure(m, sp) => ParseOutcome::Failure(m, sp),
        }
    } else {
        ParseOutcome::Failure("Unknown token"@, ts[pos].span)
    }
}

#[via_fn]
proof fn spec_parse_functions_decreases(ts: Seq<TokenModel>, pos: int) {
    if wf_token_seq(ts) && 0 <= pos < ts.len() {
        lemma_parse_function_pos(ts, pos);
    }
}

proof fn lemma_parse_functions_pos(ts: Seq<TokenModel>, pos: int)
    requires
        wf_token_seq(ts),
        0 <= pos < ts.len(),
    ensures
        spec_parse_functions(ts, pos) matches ParseOutcome::Success(_, p) ==> pos <= p < ts.len()
            && ts[p].contents is EOF,
    decreases ts.len() - pos,
{
    if ts[pos].contents is EOF {
    } else if ts[pos].contents is Fun {
        lemma_parse_function_pos(ts, pos);
        match spec_parse_function(ts, pos) {
            ParseOutcome::Success(f, p) => {
                lemma_parse_functions_pos(ts, p);
            },
            ParseOutcome::Failure(m, sp) => {},
        }
    }
}

/// One file's whole parse: every function up to the end of input.
pub open spec fn spec_parse_program(ts: Seq<TokenModel>, pos: int) -> ParseOutcome<ProgramModel>
    recommends
        wf_token_seq(ts),
        0 <= pos < ts.len(),
{
    match spec_parse_functions(ts, pos) {
        ParseOutcome::Success(fs, p) => ParseOutcome::Success(
            ProgramModel { functions: fs, span: zero_span() },
            p,
        ),
        ParseOutcome::Failure(m, sp) => ParseOutcome::Failure(m, sp),
    }
}

/// The same expression with its span attributed to another file.
pub open spec fn retag_expression(e: ExpressionModel, file_id: FileId) -> ExpressionModel {
    match e {
        ExpressionModel::Identifier(s, sp) => ExpressionModel::Identifier(
            s,
            retag_span(sp, file_id),
        ),
        ExpressionModel::NumericLiteral(n, sp) => ExpressionModel::NumericLiteral(
            n,
            retag_span(sp, file_id),
        ),
        ExpressionModel::BooleanLiteral(b, sp) => ExpressionModel::BooleanLiteral(
            b,
            retag_span(sp, file_id),
        ),
        ExpressionModel::StringLiteral(s, sp) => ExpressionModel::StringLiteral(
            s,
            retag_span(sp, file_id),
        ),
    }
}

/// The same statement with its spans attributed to another file.
pub open spec fn retag_statement(st: StatementModel, file_id: FileId) -> StatementModel {
    match st {
        StatementModel::Return(e, sp) => StatementModel::Return(
            retag_expression(e, file_id),
            retag_span(sp, file_id),
        ),
    }
}

/// The same statement sequence attributed to another file.
pub open spec fn retag_statements(sts: Seq<StatementModel>, file_id: FileId) -> Seq<
    StatementModel,
> {
    sts.map_values(|st: StatementModel| retag_statement(st, file_id))
}

/// The same block with its token-derived spans attributed to another
/// file.  The block's own span is no token's span and stays as built.
pub open spec fn retag_block(b: BlockModel, file_id: FileId) -> BlockModel {
    BlockModel { statements: retag_statements(b.statements, file_id), span: b.span }
}

/// The same function with its token-derived spans attributed to another
/// file.
pub open spec fn retag_function(f: FunctionModel, file_id: FileId) -> FunctionModel {
    FunctionModel {
        name: f.name,
        name_span: retag_span(f.name_span, file_id),
        block: retag_block(f.block, file_id),
        span: f.span,
    }
}

/// The same function sequence attributed to another file.
pub open spec fn retag_functions(fs: Seq<FunctionModel>, file_id: FileId) -> Seq<FunctionModel> {
    fs.map_values(|f: FunctionModel| retag_function(f, file_id))
}

/// The same program with its token-derived spans attributed to another
/// file.
pub open spec fn retag_program(p: ProgramModel, file_id: FileId) -> ProgramModel {
    ProgramModel { functions: retag_functions(p.functions, file_id), span: p.span }
}

proof fn lemma_retag_tokens_facts(ts: Seq<TokenModel>, file_id: FileId)
    ensures
        retag_tokens(ts, file_id).len() == ts.len(),
        forall|i: int|
            0 <= i < ts.len() ==> (#[trigger] retag_tokens(ts, file_id)[i]) == retag_token(
                ts[i],
                file_id,
            ),
        wf_token_seq(ts) ==> wf_token_seq(retag_tokens(ts, file_id)),
{
    let rts = retag_tokens(ts, file_id);
    assert forall|i: int| 0 <= i < ts.len() implies (#[trigger] rts[i]) == retag_token(
        ts[i],
        file_id,
    ) by {}
    if wf_token_seq(ts) {
        assert(rts.last() == retag_token(ts[ts.len() - 1], file_id));
        assert forall|i: int| 0 <= i < rts.len() - 1 implies rts[i].contents != TokenKind::EOF by {
            assert(rts[i] == retag_token(ts[i], file_id));
        }
    }
}

proof fn lemma_retag_match(ts: Seq<TokenModel>, file_id: FileId, pos: int, expected: TokenKind)
    requires
        0 <= pos < ts.len(),
    ensures
        spec_match_token(retag_tokens(ts, file_id), pos, expected) == (match spec_match_token(
            ts,
            pos,
            expected,
        ) {
            ParseOutcome::Success(u, p) => ParseOutcome::<()>::Success(u, p),
            ParseOutcome::Failure(m, sp) => ParseOutcome::<()>::Failure(
                m,
                retag_span(sp, file_id),
            ),
        }),
{
    lemma_retag_tokens_facts(ts, file_id);
    assert(retag_tokens(ts, file_id)[pos] == retag_token(ts[pos], file_id));
}

proof fn lemma_retag_expression(ts: Seq<TokenModel>, file_id: FileId, pos: int)
    requires
        0 <= pos < ts.len(),
    ensures
        spec_parse_expression(retag_tokens(ts, file_id), pos) == (match spec_parse_expression(
            ts,
            pos,
        ) {
            ParseOutcome::Success(e, p) => ParseOutcome::Success(retag_expression(e, file_id), p),
            ParseOutcome::Failure(m, sp) => ParseOutcome::<ExpressionModel>::Failure(
                m,
                retag_span(sp, file_id),
            ),
        }),
{
    lemma_retag_tokens_facts(ts, file_id);
    assert(retag_tokens(ts, file_id)[pos] == retag_token(ts[pos], file_id));
}

proof fn lemma_retag_statement(ts: Seq<TokenModel>, file_id: FileId, pos: int)
    requires
        wf_token_seq(ts),
        0 <= pos < ts.len(),
    ensures
        spec_parse_statement(retag_tokens(ts, file_id), pos) == (match spec_parse_statement(
            ts,
            pos,
        ) {
            ParseOutcome::Success(st, p) => ParseOutcome::Success(retag_statement(st, file_id), p),
            ParseOutcome::Failure(m, sp) => ParseOutcome::<StatementModel>::Failure(
                m,
                retag_span(sp, file_id),
            ),
        }),
{
    lemma_retag_tokens_facts(ts, file_id);
    assert(retag_tokens(ts, file_id)[pos] == retag_token(ts[pos], file_id));
    if ts[pos].contents is Return {
        assert(pos < ts.len() - 1);
        lemma_retag_expression(ts, file_id, pos + 1);
    }
}

proof fn lemma_retag_stmts(ts: Seq<TokenModel>, file_id: FileId, pos: int)
    requires
        wf_token_seq(ts),
        0 <= pos < ts.len(),
    ensures
        spec_parse_stmts(retag_tokens(ts, file_id), pos) == (match spec_parse_stmts(ts, pos) {
            ParseOutcome::Success(sts, p) => ParseOutcome::Success(
                retag_statements(sts, file_id),
                p,
            ),
            ParseOutcome::Failure(m, sp) => ParseOutcome::<Seq<StatementModel>>::Failure(
                m,
                retag_span(sp, file_id),
            ),
        }),
    decreases ts.len() - pos,
{
    let rts = retag_tokens(ts, file_id);
    lemma_retag_tokens_facts(ts, file_id);
    assert(rts[pos] == retag_token(ts[pos], file_id));
    if ts[pos].contents is RBrace || ts[pos].contents is EOF {
        assert(retag_statements(Seq::<StatementModel>::empty(), file_id)
            =~= Seq::<StatementModel>::empty());
    } else {
        lemma_retag_statement(ts, file_id, pos);
        lemma_parse_statement_pos(ts, pos);
        match spec_parse_statement(ts, pos) {
            ParseOutcome::Success(st, p) => {
                lemma_retag_stmts(ts, file_id, p);
                match spec_parse_stmts(ts, p) {
                    ParseOutcome::Success(sts, p2) => {
                        assert(retag_statements(seq![st] + sts, file_id) =~= seq![
                            retag_statement(st, file_id),
                        ] + retag_statements(sts, file_id));
                    },
                    ParseOutcome::Failure(m, sp) => {},
                }
            },
            ParseOutcome::Failure(m, sp) => {},
        }
    }
}

proof fn lemma_retag_params(ts: Seq<TokenModel>, file_id: FileId, pos: int)
    requires
        wf_token_seq(ts),
        0 <= pos < ts.len(),
    ensures
        spec_parse_params(retag_tokens(ts, file_id), pos) == (match spec_parse_params(ts, pos) {
            ParseOutcome::Success(u, p) => ParseOutcome::<()>::Success(u, p),
            ParseOutcome::Failure(m, sp) => ParseOutcome::<()>::Failure(
                m,
                retag_span(sp, file_id),
            ),
        }),
    decreases ts.len() - pos,
{
    let rts = retag_tokens(ts, file_id);
    lemma_retag_tokens_facts(ts, file_id);
    assert(rts[pos] == retag_token(ts[pos], file_id));
    match ts[pos].contents {
        TokenKind::Comma => {
            assert(pos < ts.len() - 1);
            lemma_retag_params(ts, file_id, pos + 1);
        },
        TokenKind::Mut => {
            assert(pos < ts.len() - 1);
            lemma_retag_params(ts, file_id, pos + 1);
        },
        TokenKind::Identifier(_) => {
            assert(pos < ts.len() - 1);
            lemma_retag_match(ts, file_id, pos + 1, TokenKind::Colon);
            if ts[pos + 1].contents == TokenKind::Colon {
                assert(pos + 1 < ts.len() - 1);
                lemma_retag_match(ts, file_id, pos + 2, TokenKind::Identifier("i32"@));
                if ts[pos + 2].contents == TokenKind::Identifier("i32"@) {
                    assert(pos + 2 < ts.len() - 1);
                    lemma_retag_params(ts, file_id, pos + 3);
                }
            }
        },
        _ => {},
    }
}

proof fn lemma_retag_block(ts: Seq<TokenModel>, file_id: FileId, pos: int)
    requires
        wf_token_seq(ts),
        0 <= pos < ts.len(),
    ensures
        spec_parse_block(retag_tokens(ts, file_id), pos) == (match spec_parse_block(ts, pos) {
            ParseOutcome::Success(b, p) => ParseOutcome::Success(retag_block(b, file_id), p),
            ParseOutcome::Failure(m, sp) => ParseOutcome::<BlockModel>::Failure(
                m,
                retag_span(sp, file_id),
            ),
        }),
{
    lemma_retag_tokens_facts(ts, file_id);
    lemma_retag_match(ts, file_id, pos, TokenKind::LBrace);
    if ts[pos].contents == TokenKind::LBrace {
        assert(pos < ts.len() - 1);
        lemma_retag_stmts(ts, file_id, pos + 1);
        lemma_parse_stmts_pos(ts, pos + 1);
        match spec_parse_stmts(ts, pos + 1) {
            ParseOutcome::Success(sts, p2) => {
                lemma_retag_match(ts, file_id, p2, TokenKind::RBrace);
            },
            ParseOutcome::Failure(m, sp) => {},
        }
    }
}

proof fn lemma_retag_function(ts: Seq<TokenModel>, file_id: FileId, pos: int)
    requires
        wf_token_seq(ts),
        0 <= pos < ts.len(),
    ensures
        spec_parse_function(retag_tokens(ts, file_id), pos) == (match spec_parse_function(
            ts,
            pos,
        ) {
            ParseOutcome::Success(f, p) => ParseOutcome::Success(retag_function(f, file_id), p),
            ParseOutcome::Failure(m, sp) => ParseOutcome::<FunctionModel>::Failure(
                m,
                retag_span(sp, file_id),
            ),
        }),
{
    let rts = retag_tokens(ts, file_id);
    lemma_retag_tokens_facts(ts, file_id);
    lemma_retag_match(ts, file_id, pos, TokenKind::Fun);
    if ts[pos].contents == TokenKind::Fun {
        assert(pos < ts.len() - 1);
        let p0 = pos + 1;
        assert(rts[p0] == retag_token(ts[p0], file_id));
        if ts[p0].contents is Identifier {
            assert(p0 < ts.len() - 1);
            lemma_retag_match(ts, file_id, p0 + 1, TokenKind::LParen);
            if ts[p0 + 1].contents == TokenKind::LParen {
                assert(p0 + 1 < ts.len() - 1);
                lemma_retag_params(ts, file_id, p0 + 2);
                lemma_parse_params_pos(ts, p0 + 2);
                match spec_parse_params(ts, p0 + 2) {
                    ParseOutcome::Success(_, p2) => {
                        lemma_retag_match(ts, file_id, p2, TokenKind::ThinArrow);
                        if ts[p2].contents == TokenKind::ThinArrow {
                            assert(p2 < ts.len() - 1);
                            lemma_retag_match(ts, file_id, p2 + 1, TokenKind::Identifier("i32"@));
                            if ts[p2 + 1].contents == TokenKind::Identifier("i32"@) {
                                assert(p2 + 1 < ts.len() - 1);
                                lemma_retag_block(ts, file_id, p2 + 2);
                            }
                        }
                    },
                    ParseOutcome::Failure(m, sp) => {},
                }
            }
        }
    }
}

proof fn lemma_retag_functions(ts: Seq<TokenModel>, file_id: FileId, pos: int)
    requires
        wf_token_seq(ts),
        0 <= pos < ts.len(),
    ensures
        spec_parse_functions(retag_tokens(ts, file_id), pos) == (match spec_parse_functions(
            ts,
            pos,
        ) {
            ParseOutcome::Success(fs, p) => ParseOutcome::Success(
                retag_functions(fs, file_id),
                p,
            ),
            ParseOutcome::Failure(m, sp) => ParseOutcome::<Seq<FunctionModel>>::Failure(
                m,
                retag_span(sp, file_id),
            ),
        }),
    decreases ts.len() - pos,
{
    let rts = retag_tokens(ts, file_id);
    lemma_retag_tokens_facts(ts, file_id);
    assert(rts[pos] == retag_token(ts[pos], file_id));
    if ts[pos].contents is EOF {
        assert(retag_functions(Seq::<FunctionModel>::empty(), file_id)
            =~= Seq::<FunctionModel>::empty());
    } else if ts[pos].contents is Fun {
        lemma_retag_function(ts, file_id, pos);
        lemma_parse_function_pos(ts, pos);
        match spec_parse_function(ts, pos) {
            ParseOutcome::Success(f, p) => {
                lemma_retag_functions(ts, file_id, p);
                match spec_parse_functions(ts, p) {
                    ParseOutcome::Success(fs, p2) => {
                        assert(retag_functions(seq![f] + fs, file_id) =~= seq![
                            retag_function(f, file_id),
                        ] + retag_functions(fs, file_id));
                    },
                    ParseOutcome::Failure(m, sp) => {},
                }
            },
            ParseOutcome::Failure(m, sp) => {},
        }
    }
}

/// Law: the file id attributes diagnostics only; it never influences
/// what is parsed.  Parsing one token sequence under another file id
/// yields the same outcome — the same program up to the id written into
/// its spans, or the same error message up to the id of its span — so
/// files whose path hashes collide cannot contaminate each other's
/// syntax trees.
pub proof fn lemma_parse_independent_of_file_id(ts: Seq<TokenModel>, file_id: FileId, pos: int)
    requires
        wf_token_seq(ts),
        0 <= pos < ts.len(),
    ensures
        spec_parse_program(retag_tokens(ts, file_id), pos) == (match spec_parse_program(ts, pos) {
            ParseOutcome::Success(p, q) => ParseOutcome::Success(retag_program(p, file_id), q),
            ParseOutcome::Failure(m, sp) => ParseOutcome::<ProgramModel>::Failure(
                m,
                retag_span(sp, file_id),
            ),
        }),
{
    lemma_retag_functions(ts, file_id, pos);
}

/// The display name of a token's contents, used in mismatch messages.
fn token_name(c: &TokenContents) -> (r: &'static str)
    ensures
        r@ == spec_token_name(c@),
{
    match c {
        TokenContents::Identifier(_) => "identifier",
        TokenContents::Number(_) => "number",
        TokenContents::String(_) => "string",
        TokenContents::Fun => "fun",
        TokenContents::Let => "let",
        TokenContents::If => "if",
        TokenContents::Else => "else",
        TokenContents::While => "while",
        TokenContents::For => "for",
        TokenContents::Return => "return",
        TokenContents::True => "true",
        TokenContents::False => "false",
        TokenContents::Semicolon => ";",
        TokenContents::LParen => "(",
        TokenContents::RParen => ")",
        TokenContents::LBrace => "{",
        TokenContents::RBrace => "}",
        TokenContents::Plus => "+",
        TokenContents::Minus => "-",
        TokenContents::Equal => "=",
        TokenContents::Comma => ",",
        TokenContents::Mut => "mut",
        TokenContents::Colon => ":",
        TokenContents::ThinArrow => "->",
        TokenContents::Garbage => "garbage",
        TokenContents::EOF => "end of input",
    }
}

/// Builds the message of a token mismatch, naming both tokens.
fn mismatch_message(expected: &TokenContents, actual: &TokenContents) -> (r: String)
    ensures
        r@ == spec_mismatch_msg(expected@, actual@),
{
    let s = String::from_str("Expected token ");
    let s = s.concat(token_name(expected));
    let s = s.concat(", found ");
    let s = s.concat(token_name(actual));
    proof {
        assert(s@ =~= spec_mismatch_msg(expected@, actual@));
    }
    s
}

/// The recursive-descent parser's state: the file's identity, a cursor
/// into the fixed token sequence, and the sequence itself.
pub struct Parser {
    pub file_id: FileId,
    pub file_name: String,
    pub position: usize,
    pub tokens: Vec<Token>,
}

impl Parser {
    /// The models of the parser's tokens.
    pub open spec fn token_models(&self) -> Seq<TokenModel> {
        views_of(self.tokens@)
    }

    /// A parser fit to run: a well-formed token sequence whose spans all
    /// carry the parser's file id.
    pub open spec fn wf(&self) -> bool {
        &&& wf_token_seq(self.token_models())
        &&& forall|i: int|
            0 <= i < self.tokens@.len() ==> (#[trigger] self.tokens@[i]).span.file_id
                == self.file_id
    }

    /// The parser never rewrites its input: the file identity and the
    /// token sequence stay as constructed.
    pub open spec fn same_source(a: Parser, b: Parser) -> bool {
        &&& a.file_id == b.file_id
        &&& a.file_name == b.file_name
        &&& a.tokens == b.tokens
    }

    pub fn new(file_id: FileId, file_name: String, tokens: Vec<Token>) -> (r: Self)
        ensures
            r.file_id == file_id,
            r.file_name == file_name,
            r.tokens == tokens,
            r.position == 0,
    {
        Self { file_id, file_name, position: 0, tokens }
    }

    /// The cursor stands on the end-of-input marker.  This differs from
    /// "cursor past the end of the array": the sequence always holds a
    /// trailing end-of-input token.
    fn eof(&self) -> (r: bool)
        requires
            self.position < self.tokens@.len(),
        ensures
            r == (self.token_models()[self.position as int].contents is EOF),
    {
        matches!(self.tokens[self.position].contents, TokenContents::EOF)
    }

    /// The token at the cursor; never advances.
    fn current(&self) -> (r: &Token)
        requires
            self.position < self.tokens@.len(),
        ensures
            *r == self.tokens@[self.position as int],
    {
        &self.tokens[self.position]
    }

    /// Consumes the current token: moves the cursor forward one and
    /// returns the token just passed.
    fn advance(&mut self) -> (r: &Token)
        requires
            old(self).position + 1 < old(self).tokens@.len(),
        ensures
            Parser::same_source(*old(self), *final(self)),
            final(self).position == old(self).position + 1,
            *r == old(self).tokens@[old(self).position as int],
    {
        proof {
            vstd::std_specs::vec::axiom_spec_len(&self.tokens);
        }
        self.position = self.position + 1;
        self.previous()
    }

    /// The token before the cursor, or the first token while the cursor
    /// still stands at the start.
    fn previous(&self) -> (r: &Token)
        requires
            1 <= self.tokens@.len(),
            self.position <= self.tokens@.len(),
        ensures
            *r == (if self.position == 0 {
                self.tokens@[0]
            } else {
                self.tokens@[self.position - 1]
            }),
    {
        if self.position == 0 {
            return &self.tokens[0];
        }
        &self.tokens[self.position - 1]
    }

    /// One token of lookahead; never advances.
    fn peek(&self) -> (r: &Token)
        requires
            self.position + 1 < self.tokens@.len(),
        ensures
            *r == self.tokens@[self.position + 1],
    {
        proof {
            vstd::std_specs::vec::axiom_spec_len(&self.tokens);
        }
        &self.tokens[self.position + 1]
    }

    /// Lookahead by an arbitrary offset; out-of-range lookahead clamps
    /// to the final token rather than indexing out of bounds.
    fn peek_with_offset(&self, offset: usize) -> (r: &Token)
        requires
            1 <= self.tokens@.len(),
            self.position <= self.tokens@.len(),
        ensures
            *r == (if self.position + offset >= self.tokens@.len() {
                self.tokens@[self.tokens@.len() - 1]
            } else {
                self.tokens@[self.position + offset]
            }),
    {
        if offset >= self.tokens.len() - self.position {
            return &self.tokens[self.tokens.len() - 1];
        }
        &self.tokens[self.position + offset]
    }

    /// Compares the current token's contents (never its span) to the
    /// expected contents; on a match the cursor advances one token, on a
    /// mismatch the parse fails, naming both tokens.
    fn match_token(&mut self, token: TokenContents) -> (r: Result<(), TalkError>)
        requires
            old(self).wf(),
            old(self).position < old(self).tokens@.len(),
            token@ != TokenKind::EOF,
        ensures
            Parser::same_source(*old(self), *final(self)),
            match r {
                Ok(_) => ({
                    &&& spec_match_token(
                        old(self).token_models(),
                        old(self).position as int,
                        token@,
                    ) == ParseOutcome::<()>::Success((), final(self).position as int)
                    &&& final(self).position == old(self).position + 1
                    &&& final(self).position < final(self).tokens@.len()
                }),
                Err(e) => ({
                    &&& spec_match_token(
                        old(self).token_models(),
                        old(self).position as int,
                        token@,
                    ) matches ParseOutcome::Failure(m, sp) && is_parser_error(e, m, sp)
                    &&& final(self).position == old(self).position
                }),
            },
    {
        proof {
            vstd::std_specs::vec::axiom_spec_len(&self.tokens);
        }
        if self.tokens[self.position].contents == token {
            proof {
                assert(self.token_models()[self.position as int].contents != TokenKind::EOF);
                assert(self.position < self.tokens@.len() - 1);
            }
            self.position = self.position + 1;
            Ok(())
        } else {
            let msg = mismatch_message(&token, &self.tokens[self.position].contents);
            Err(TalkError::ParserError(msg, self.tokens[self.position].span))
        }
    }

    /// An expression: only a numeric literal token is accepted today.
    fn parse_expression(&mut self) -> (r: Result<ParsedExpression, TalkError>)
        requires
            old(self).wf(),
            old(self).position < old(self).tokens@.len(),
        ensures
            Parser::same_source(*old(self), *final(self)),
            match r {
                Ok(e) => ({
                    &&& spec_parse_expression(
                        old(self).token_models(),
                        old(self).position as int,
                    ) == ParseOutcome::Success(e@, final(self).position as int)
                    &&& final(self).position == old(self).position + 1
                    &&& final(self).position < final(self).tokens@.len()
                }),
                Err(err) => ({
                    &&& spec_parse_expression(
                        old(self).token_models(),
                        old(self).position as int,
                    ) matches ParseOutcome::Failure(m, sp) && is_parser_error(err, m, sp)
                    &&& final(self).position == old(self).position
                }),
            },
    {
        proof {
            vstd::std_specs::vec::axiom_spec_len(&self.tokens);
        }
        let cur = self.position;
        match &self.tokens[cur].contents {
            TokenContents::Number(numeric) => {
                let value = *numeric;
                let span = self.tokens[cur].span;
                proof {
                    assert(self.token_models()[cur as int].contents != TokenKind::EOF);
                    assert(cur < self.tokens@.len() - 1);
                }
                self.advance();
                Ok(ParsedExpression::NumericLiteral(value, span))
            },
            _ => Err(
                TalkError::ParserError(
                    String::from_str("Unknown expression"),
                    self.tokens[cur].span,
                ),
            ),
        }
    }

    /// A statement: only `return` followed by an expression is
    /// recognized today.  The statement's span merges the `return`
    /// keyword's span with the expression's span.
    fn parse_statement(&mut self) -> (r: Result<ParsedStatement, TalkError>)
        requires
            old(self).wf(),
            old(self).position < old(self).tokens@.len(),
        ensures
            Parser::same_source(*old(self), *final(self)),
            match r {
                Ok(st) => ({
                    &&& spec_parse_statement(
                        old(self).token_models(),
                        old(self).position as int,
                    ) == ParseOutcome::Success(st@, final(self).position as int)
                    &&& old(self).position < final(self).position < final(self).tokens@.len()
                }),
                Err(err) => (spec_parse_statement(
                    old(self).token_models(),
                    old(self).position as int,
                ) matches ParseOutcome::Failure(m, sp) && is_parser_error(err, m, sp)),
            },
    {
        proof {
            vstd::std_specs::vec::axiom_spec_len(&self.tokens);
        }
        let cur = self.position;
        if matches!(self.tokens[cur].contents, TokenContents::Return) {
            let return_span = self.tokens[cur].span;
            proof {
                assert(self.token_models()[cur as int].contents != TokenKind::EOF);
                assert(cur < self.tokens@.len() - 1);
            }
            self.advance();
            match self.parse_expression() {
                Ok(expression) => {
                    let expression_span = expression.span();
                    proof {
                        assert(expression.spec_span() == expression@.span());
                        assert(return_span.file_id == self.file_id);
                        assert(expression@.span().file_id == self.file_id);
                    }
                    let merged_span = return_span.merge(&expression_span);
                    Ok(ParsedStatement::Return(expression, merged_span))
                },
                Err(e) => Err(e),
            }
        } else {
            Err(
                TalkError::ParserError(
                    String::from_str("Unknown statement type"),
                    self.tokens[cur].span,
                ),
            )
        }
    }

    /// A block: `{`, statements until the first `}` or the end of
    /// input, then the mandatory `}`.
    #[verifier::loop_isolation(false)]
    fn parse_block(&mut self) -> (r: Result<ParsedBlock, TalkError>)
        requires
            old(self).wf(),
            old(self).position < old(self).tokens@.len(),
        ensures
            Parser::same_source(*old(self), *final(self)),
            match r {
                Ok(b) => ({
                    &&& spec_parse_block(old(self).token_models(), old(self).position as int)
                        == ParseOutcome::Success(b@, final(self).position as int)
                    &&& old(self).position < final(self).position < final(self).tokens@.len()
                }),
                Err(err) => (spec_parse_block(
                    old(self).token_models(),
                    old(self).position as int,
                ) matches ParseOutcome::Failure(m, sp) && is_parser_error(err, m, sp)),
            },
    {
        let ghost ts = self.token_models();
        let ghost pos0 = self.position as int;
        proof {
            vstd::std_specs::vec::axiom_spec_len(&self.tokens);
        }
        let mut block = ParsedBlock::new();
        match self.match_token(TokenContents::LBrace) {
            Err(e) => {
                return Err(e);
            },
            Ok(_) => {},
        }
        let ghost p1 = self.position as int;
        proof {
            match spec_parse_stmts(ts, p1) {
                ParseOutcome::Success(sts, p) => {
                    assert(statement_views(block.statements@) =~= Seq::<StatementModel>::empty());
                    assert(Seq::<StatementModel>::empty() + sts =~= sts);
                },
                ParseOutcome::Failure(m, sp) => {},
            }
        }
        while !self.eof() && !matches!(self.current().contents, TokenContents::RBrace)
            invariant
                self.wf(),
                Parser::same_source(*old(self), *self),
                ts == self.token_models(),
                self.position < self.tokens@.len(),
                block.span == zero_span(),
                ({
                    match spec_parse_stmts(ts, self.position as int) {
                        ParseOutcome::Success(sts, p) => spec_parse_stmts(ts, p1)
                            == ParseOutcome::Success(
                            statement_views(block.statements@) + sts,
                            p,
                        ),
                        ParseOutcome::Failure(m, sp) => spec_parse_stmts(ts, p1)
                            == ParseOutcome::<Seq<StatementModel>>::Failure(m, sp),
                    }
                }),
            decreases self.tokens@.len() - self.position,
        {
            let ghost cur = self.position as int;
            proof {
                lemma_parse_statement_pos(ts, cur);
            }
            let ghost stmts0 = block.statements@;
            match self.parse_statement() {
                Ok(statement) => {
                    block.statements.push(statement);
                    proof {
                        lemma_statement_views_push(stmts0, statement);
                        match spec_parse_stmts(ts, self.position as int) {
                            ParseOutcome::Success(sts, p) => {
                                assert(statement_views(stmts0) + (seq![statement@] + sts) =~= (
                                statement_views(stmts0).push(statement@) + sts));
                            },
                            ParseOutcome::Failure(m, sp) => {},
                        }
                    }
                },
                Err(e) => {
                    return Err(e);
                },
            }
        }
        proof {
            lemma_parse_stmts_pos(ts, p1);
            assert(spec_parse_stmts(ts, self.position as int) == ParseOutcome::Success(
                Seq::<StatementModel>::empty(),
                self.position as int,
            ));
            assert(statement_views(block.statements@) + Seq::<StatementModel>::empty()
                =~= statement_views(block.statements@));
        }
        match self.match_token(TokenContents::RBrace) {
            Err(e) => {
                return Err(e);
            },
            Ok(_) => {},
        }
        Ok(block)
    }

    /// A function: `fun` IDENT `(` ParamList `)` `->` IDENT Block.  Each
    /// parameter is tracked for its call-site-label requirement (reset
    /// after each comma) and its mutability; the type after `:` and the
    /// return type must both be the literal text `i32`.
    #[verifier::loop_isolation(false)]
    fn parse_function(&mut self) -> (r: Result<ParsedFunction, TalkError>)
        requires
            old(self).wf(),
            old(self).position < old(self).tokens@.len(),
        ensures
            Parser::same_source(*old(self), *final(self)),
            match r {
                Ok(f) => ({
                    &&& spec_parse_function(old(self).token_models(), old(self).position as int)
                        == ParseOutcome::Success(f@, final(self).position as int)
                    &&& old(self).position < final(self).position < final(self).tokens@.len()
                }),
                Err(err) => (spec_parse_function(
                    old(self).token_models(),
                    old(self).position as int,
                ) matches ParseOutcome::Failure(m, sp) && is_parser_error(err, m, sp)),
            },
    {
        let ghost ts = self.token_models();
        let ghost pos0 = self.position as int;
        proof {
            vstd::std_specs::vec::axiom_spec_len(&self.tokens);
        }
        let mut function = ParsedFunction::new();
        match self.match_token(TokenContents::Fun) {
            Err(e) => {
                return Err(e);
            },
            Ok(_) => {},
        }
        let name_position = self.position;
        match &self.tokens[name_position].contents {
            TokenContents::Identifier(name) => {
                function.name = name.clone();
                function.name_span = self.tokens[name_position].span;
            },
            _ => {
                return Err(
                    TalkError::ParserError(
                        String::from_str("Expected identifier"),
                        self.tokens[name_position].span,
                    ),
                );
            },
        }
        proof {
            assert(ts[name_position as int].contents != TokenKind::EOF);
            assert(name_position < self.tokens@.len() - 1);
        }
        self.advance();
        match self.match_token(TokenContents::LParen) {
            Err(e) => {
                return Err(e);
            },
            Ok(_) => {},
        }
        let ghost params_start = self.position as int;
        let mut params: Vec<(String, bool, bool)> = Vec::new();
        let mut current_param_requires_label = true;
        let mut current_param_is_mutable = false;
        while !self.eof() && !matches!(self.current().contents, TokenContents::RParen)
            invariant
                self.wf(),
                Parser::same_source(*old(self), *self),
                ts == self.token_models(),
                self.position < self.tokens@.len(),
                spec_parse_params(ts, self.position as int) == spec_parse_params(
                    ts,
                    params_start,
                ),
            decreases self.tokens@.len() - self.position,
        {
            let cur = self.position;
            match &self.tokens[cur].contents {
                TokenContents::Comma => {
                    current_param_requires_label = true;
                    proof {
                        assert(ts[cur as int].contents != TokenKind::EOF);
                        assert(cur < self.tokens@.len() - 1);
                    }
                    self.advance();
                },
                TokenContents::Mut => {
                    current_param_is_mutable = true;
                    proof {
                        assert(ts[cur as int].contents != TokenKind::EOF);
                        assert(cur < self.tokens@.len() - 1);
                    }
                    self.advance();
                },
                TokenContents::Identifier(name) => {
                    let name_copy = name.clone();
                    proof {
                        assert(ts[cur as int].contents != TokenKind::EOF);
                        assert(cur < self.tokens@.len() - 1);
                    }
                    self.advance();
                    match self.match_token(TokenContents::Colon) {
                        Err(e) => {
                            return Err(e);
                        },
                        Ok(_) => {},
                    }
                    match self.match_token(TokenContents::Identifier(String::from_str("i32"))) {
                        Err(e) => {
                            return Err(e);
                        },
                        Ok(_) => {},
                    }
                    params.push((name_copy, current_param_requires_label, current_param_is_mutable
                    ));
                },
                _ => {
                    return Err(
                        TalkError::ParserError(
                            String::from_str("Expected identifier"),
                            self.tokens[cur].span,
                        ),
                    );
                },
            }
        }
        proof {
            lemma_parse_params_pos(ts, params_start);
        }
        if !self.eof() {
            proof {
                assert(ts[self.position as int].contents is RParen);
                assert(ts[self.position as int].contents != TokenKind::EOF);
                assert(self.position < self.tokens@.len() - 1);
            }
            self.advance();
        }
        match self.match_token(TokenContents::ThinArrow) {
            Err(e) => {
                return Err(e);
            },
            Ok(_) => {},
        }
        match self.match_token(TokenContents::Identifier(String::from_str("i32"))) {
            Err(e) => {
                return Err(e);
            },
            Ok(_) => {},
        }
        match self.parse_block() {
            Ok(b) => {
                function.block = b;
                Ok(function)
            },
            Err(e) => Err(e),
        }
    }

    /// Parses the whole token sequence into one program: functions until
    /// the end of input.  Any other top-level token is a fatal parse
    /// error, returned as a value rather than aborting.
    #[verifier::loop_isolation(false)]
    pub fn parse(&mut self) -> (r: Result<ParsedProgram, TalkError>)
        requires
            old(self).wf(),
            old(self).position < old(self).tokens@.len(),
        ensures
            Parser::same_source(*old(self), *final(self)),
            match r {
                Ok(p) => spec_parse_program(old(self).token_models(), old(self).position as int)
                    == ParseOutcome::Success(p@, final(self).position as int),
                Err(err) => (spec_parse_program(
                    old(self).token_models(),
                    old(self).position as int,
                ) matches ParseOutcome::Failure(m, sp) && is_parser_error(err, m, sp)),
            },
    {
        let ghost ts = self.token_models();
        let ghost pos0 = self.position as int;
        proof {
            vstd::std_specs::vec::axiom_spec_len(&self.tokens);
            match spec_parse_functions(ts, pos0) {
                ParseOutcome::Success(fs, p) => {
                    assert(Seq::<FunctionModel>::empty() + fs =~= fs);
                },
                ParseOutcome::Failure(m, sp) => {},
            }
        }
        let mut program = ParsedProgram::new();
        proof {
            assert(function_views(program.functions@) =~= Seq::<FunctionModel>::empty());
        }
        while !self.eof()
            invariant
                self.wf(),
                Parser::same_source(*old(self), *self),
                ts == self.token_models(),
                self.position < self.tokens@.len(),
                program.span == zero_span(),
                ({
                    match spec_parse_functions(ts, self.position as int) {
                        ParseOutcome::Success(fs, p) => spec_parse_functions(ts, pos0)
                            == ParseOutcome::Success(
                            function_views(program.functions@) + fs,
                            p,
                        ),
                        ParseOutcome::Failure(m, sp) => spec_parse_functions(ts, pos0)
                            == ParseOutcome::<Seq<FunctionModel>>::Failure(m, sp),
                    }
                }),
            decreases self.tokens@.len() - self.position,
        {
            let ghost cur = self.position as int;
            proof {
                lemma_parse_function_pos(ts, cur);
            }
            if matches!(self.current().contents, TokenContents::Fun) {
                let ghost functions0 = program.functions@;
                match self.parse_function() {
                    Ok(function) => {
                        program.functions.push(function);
                        proof {
                            lemma_function_views_push(functions0, function);
                            match spec_parse_functions(ts, self.position as int) {
                                ParseOutcome::Success(fs, p) => {
                                    assert(function_views(functions0) + (seq![function@] + fs)
                                        =~= (function_views(functions0).push(function@) + fs));
                                },
                                ParseOutcome::Failure(m, sp) => {},
                            }
                        }
                    },
                    Err(e) => {
                        return Err(e);
                    },
                }
            } else {
                return Err(
                    TalkError::ParserError(
                        String::from_str("Unknown token"),
                        self.tokens[self.position].span,
                    ),
                );
            }
        }
        proof {
            assert(spec_parse_functions(ts, self.position as int) == ParseOutcome::Success(
                Seq::<FunctionModel>::empty(),
                self.position as int,
            ));
            assert(function_views(program.functions@) + Seq::<FunctionModel>::empty()
                =~= function_views(program.functions@));
        }
        Ok(program)
    }
}

} // verus!
