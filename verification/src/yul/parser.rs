//! Recursive-descent parsing of Yul token sequences into syntax trees.

use vstd::prelude::*;
use super::ast::{
    kw, For, FunctionDefinition, If, Assignment, VariableDeclaration, Switch, SwitchDefault,
    SwitchOptions,
    args_tokens, block_tokens, call_tokens, cases_tokens, expr_tokens, ident_list_tokens,
    ident_tok, literal_tokens, stmt_tokens, stmts_tokens, type_suffix_tokens, typed_ident_tokens,
    typed_list_tokens, keyword_text, Block, Case, DecimalNumber, Expression, FunctionCall,
    HexNumber, Identifier, Literal, SpecToken, Statement, StringLiteral, TokenKind, TypeName,
    TypedIdentifier, object_tokens, segments_tokens, object_word, code_word, data_word, data_literal_token,
    DataLiteral, InnerSegment, Object,
};
use super::lexer::{fixed_text, token_views, wf_token, lexes, tokenize, token_in, Token, lexes_only, is_prefix_of};
use super::lex_unique::same_token;
use super::parse_complete::{starts_at, no_colon, ends_expr, ends_stmt, is_literal_start, is_stmt_start, wf_stmt, wf_block, wf_stmts, wf_cases, wf_object, args_rest, typed_rest, idents_rest, stmts_rest, cases_rest, segments_rest, segment_tokens, lemma_args_front, lemma_typed_front, lemma_idents_front, lemma_stmts_front, lemma_cases_front, lemma_segments_front, lemma_literal_first, literal_type, lemma_expr_first, lemma_typed_first, lemma_block_first, lemma_stmt_first, lemma_starts_split, stmt_at};

verus! {

/// Every token's text suits its kind.
pub open spec fn tokens_wf(toks: Seq<Token>) -> bool {
    forall|i: int| 0 <= i < toks.len() ==> wf_token(#[trigger] toks[i]@)
}

proof fn lemma_split(t: Seq<SpecToken>, a: int, b: int, c: int)
    requires
        0 <= a <= b <= c <= t.len(),
    ensures
        t.subrange(a, c) == t.subrange(a, b) + t.subrange(b, c),
{
    assert(t.subrange(a, c) =~= t.subrange(a, b) + t.subrange(b, c));
}

proof fn lemma_one(t: Seq<SpecToken>, a: int)
    requires
        0 <= a < t.len(),
    ensures
        t.subrange(a, a + 1) == seq![t[a]],
{
    assert(t.subrange(a, a + 1) =~= seq![t[a]]);
}

/// Appending an argument appends a comma, unless it is the first, and its tokens.
pub proof fn lemma_args_push(s: Seq<Expression>, e: Expression)
    ensures
        args_tokens(s.push(e)) == if s.len() == 0 {
            expr_tokens(e)
        } else {
            args_tokens(s) + seq![(TokenKind::Comma, seq![','])] + expr_tokens(e)
        },
{
    assert(s.push(e).drop_last() =~= s);
}

proof fn lemma_typed_push(s: Seq<TypedIdentifier>, e: TypedIdentifier)
    ensures
        typed_list_tokens(s.push(e)) == if s.len() == 0 {
            typed_ident_tokens(e)
        } else {
            typed_list_tokens(s) + seq![(TokenKind::Comma, seq![','])] + typed_ident_tokens(e)
        },
{
    assert(s.push(e).drop_last() =~= s);
}

proof fn lemma_idents_push(s: Seq<Identifier>, e: Identifier)
    ensures
        ident_list_tokens(s.push(e)) == if s.len() == 0 {
            seq![ident_tok(e)]
        } else {
            ident_list_tokens(s) + seq![(TokenKind::Comma, seq![','])] + seq![ident_tok(e)]
        },
{
    assert(s.push(e).drop_last() =~= s);
}

/// Appending a statement appends its tokens.
pub proof fn lemma_stmts_push(s: Seq<Statement>, st: Statement)
    ensures
        stmts_tokens(s.push(st)) == stmts_tokens(s) + stmt_tokens(st),
{
    assert(s.push(st).drop_last() =~= s);
}

proof fn lemma_cases_push(s: Seq<Case>, c: Case)
    ensures
        cases_tokens(s.push(c)) == cases_tokens(s) + seq![(TokenKind::KwCase, keyword_text(TokenKind::KwCase))]
            + literal_tokens(c.case) + block_tokens(c.body),
{
    assert(s.push(c).drop_last() =~= s);
}

/// The kind of the token at `pos`, if there is one.
fn kind_at(toks: &Vec<Token>, pos: usize) -> (r: Option<TokenKind>)
    ensures
        pos < toks@.len() ==> r == Some(toks@[pos as int].kind),
        pos >= toks@.len() ==> r is None,
{
    if pos < toks.len() {
        Some(toks[pos].kind)
    } else {
        None
    }
}

/// The identifier at `pos`.
fn ident_at(toks: &Vec<Token>, pos: usize) -> (id: Identifier)
    requires
        pos < toks@.len(),
        toks@[pos as int].kind == TokenKind::Ident,
    ensures
        ident_tok(id) == token_views(toks@)[pos as int],
{
    Identifier { name: toks[pos].text.clone() }
}

/// An optional `: type` at `pos`.
fn parse_type_suffix(toks: &Vec<Token>, pos: usize) -> (r: (Option<TypeName>, usize))
    requires
        pos <= toks@.len(),
        tokens_wf(toks@),
    ensures
        pos <= r.1 <= toks@.len(),
        token_views(toks@).subrange(pos as int, r.1 as int) == type_suffix_tokens(r.0),
        forall|ty: Option<TypeName>|
            starts_at(token_views(toks@), pos as int, #[trigger] type_suffix_tokens(ty)) && (ty is None
                ==> no_colon(token_views(toks@), pos as int)) ==> r.1 == pos + type_suffix_tokens(ty).len(),
{
    let ghost t = token_views(toks@);
    if pos < toks.len() && toks[pos].kind == TokenKind::Colon && kind_at(toks, pos + 1) == Some(
        TokenKind::Ident,
    ) {
        assert(wf_token(toks@[pos as int]@));
        let tn = TypeName { type_ident: ident_at(toks, pos + 1) };
        assert(t.subrange(pos as int, pos + 2) =~= seq![t[pos as int], t[pos + 1]]);
        (Some(tn), pos + 2)
    } else {
        assert(t.subrange(pos as int, pos as int) =~= Seq::<SpecToken>::empty());
        (None, pos)
    }
}

/// A literal at `pos`, with its optional type.
fn parse_literal(toks: &Vec<Token>, pos: usize) -> (r: Result<(Literal, usize), usize>)
    requires
        tokens_wf(toks@),
    ensures
        r matches Ok((l, p)) ==> pos < p <= toks@.len() && token_views(toks@).subrange(
            pos as int,
            p as int,
        ) == literal_tokens(l),
        forall|l: Literal|
            starts_at(token_views(toks@), pos as int, #[trigger] literal_tokens(l)) && no_colon(
                token_views(toks@),
                pos + literal_tokens(l).len(),
            ) ==> (r matches Ok((_, p)) && p == pos + literal_tokens(l).len()),
{
    let ghost t = token_views(toks@);
    if pos >= toks.len() {
        proof {
            assert forall|l: Literal| starts_at(t, pos as int, #[trigger] literal_tokens(l)) implies false by {
                lemma_literal_first(l);
            }
        }
        return Err(pos);
    }
    let k = toks[pos].kind;
    if !(k == TokenKind::KwTrue || k == TokenKind::KwFalse || k == TokenKind::HexNumber || k
        == TokenKind::DecNumber || k == TokenKind::Str) {
        proof {
            assert forall|l: Literal| starts_at(t, pos as int, #[trigger] literal_tokens(l)) implies false by {
                lemma_literal_first(l);
                assert(t.subrange(pos as int, pos + literal_tokens(l).len())[0] == t[pos as int]);
            }
        }
        return Err(pos);
    }
    assert(wf_token(toks@[pos as int]@));
    let (ty, p) = parse_type_suffix(toks, pos + 1);
    proof {
        lemma_one(t, pos as int);
        lemma_split(t, pos as int, pos + 1, p as int);
        assert forall|l: Literal|
            starts_at(t, pos as int, #[trigger] literal_tokens(l)) && no_colon(t, pos + literal_tokens(l).len())
                implies p == pos + literal_tokens(l).len() by {
            lemma_literal_first(l);
            let lt = literal_tokens(l);
            let sfx = type_suffix_tokens(literal_type(l));
            assert(t.subrange(pos + 1, pos + 1 + sfx.len()) =~= t.subrange(pos as int, pos + lt.len()).subrange(
                1,
                lt.len() as int,
            ));
            assert(lt.subrange(1, lt.len() as int) =~= sfx);
            assert(starts_at(t, pos + 1, sfx));
        }
    }
    let l = if k == TokenKind::KwTrue {
        Literal::TrueLiteral(ty)
    } else if k == TokenKind::KwFalse {
        Literal::FalseLiteral(ty)
    } else if k == TokenKind::HexNumber {
        Literal::HexNumberLiteral(HexNumber { hex: toks[pos].text.clone() }, ty)
    } else if k == TokenKind::DecNumber {
        Literal::DecimalNumberLiteral(DecimalNumber { dec: toks[pos].text.clone() }, ty)
    } else {
        Literal::StringLiteral(StringLiteral { str: toks[pos].text.clone() }, ty)
    };
    Ok((l, p))
}

/// An expression at `pos`: a call, an identifier or a literal.
fn parse_expression(toks: &Vec<Token>, pos: usize) -> (r: Result<(Expression, usize), usize>)
    requires
        tokens_wf(toks@),
    ensures
        r matches Ok((e, p)) ==> pos < p <= toks@.len() && token_views(toks@).subrange(
            pos as int,
            p as int,
        ) == expr_tokens(e),
        forall|e: Expression|
            starts_at(token_views(toks@), pos as int, #[trigger] expr_tokens(e)) && ends_expr(
                token_views(toks@),
                pos + expr_tokens(e).len(),
            ) ==> (r matches Ok((_, p)) && p == pos + expr_tokens(e).len()),
    decreases toks@.len() - pos, 1nat,
{
    let ghost t = token_views(toks@);
    proof {
        assert forall|e: Expression| starts_at(t, pos as int, #[trigger] expr_tokens(e)) implies t[pos as int]
            == expr_tokens(e)[0] && (expr_tokens(e).len() > 1 ==> t[pos + 1] == expr_tokens(e)[1]) by {
            lemma_expr_first(e);
            assert(t.subrange(pos as int, pos + expr_tokens(e).len())[0] == t[pos as int]);
            if expr_tokens(e).len() > 1 {
                assert(t.subrange(pos as int, pos + expr_tokens(e).len())[1] == t[pos + 1]);
            }
        }
    }
    if pos >= toks.len() {
        proof {
            assert forall|e: Expression| starts_at(t, pos as int, #[trigger] expr_tokens(e)) implies false by {
                lemma_expr_first(e);
            }
        }
        return Err(pos);
    }
    if toks[pos].kind == TokenKind::Ident {
        if kind_at(toks, pos + 1) == Some(TokenKind::LParen) {
            proof {
                assert forall|e: Expression|
                    starts_at(t, pos as int, #[trigger] expr_tokens(e)) && ends_expr(t, pos + expr_tokens(e).len())
                        implies e is FunctionCall && starts_at(t, pos as int, call_tokens(*(e->FunctionCall_0))) by {
                    lemma_expr_first(e);
                }
            }
            match parse_call(toks, pos) {
                Ok((fc, p)) => {
                    let e = Expression::FunctionCall(Box::new(fc));
                    return Ok((e, p));
                },
                Err(q) => {
                    return Err(q);
                },
            }
        }
        let id = ident_at(toks, pos);
        proof {
            lemma_one(t, pos as int);
            assert forall|e: Expression|
                starts_at(t, pos as int, #[trigger] expr_tokens(e)) && ends_expr(t, pos + expr_tokens(e).len())
                    implies pos + 1 == pos + expr_tokens(e).len() by {
                lemma_expr_first(e);
            }
        }
        return Ok((Expression::Identifier(id), pos + 1));
    }
    proof {
        assert forall|e: Expression|
            starts_at(t, pos as int, #[trigger] expr_tokens(e)) && ends_expr(t, pos + expr_tokens(e).len()) implies (
            e is Literal && starts_at(t, pos as int, literal_tokens(e->Literal_0)) && no_colon(
                t,
                pos + literal_tokens(e->Literal_0).len(),
            )) by {
            lemma_expr_first(e);
        }
    }
    match parse_literal(toks, pos) {
        Ok((l, p)) => Ok((Expression::Literal(l), p)),
        Err(q) => Err(q),
    }
}

/// Where a call stands at `pos`, its arguments from the `k`-th on and its
/// closing parenthesis stand at `q`.
pub open spec fn call_rest_at(t: Seq<SpecToken>, pos: int, fc: FunctionCall, q: int, k: int) -> bool {
    &&& 1 <= k <= fc.arguments@.len()
    &&& starts_at(t, q, args_rest(fc.arguments@, k) + seq![(TokenKind::RParen, seq![')'])])
    &&& pos + call_tokens(fc).len() == q + args_rest(fc.arguments@, k).len() + 1
}

/// The arguments from the `k`-th on start with a comma, unless there are none.
proof fn lemma_args_rest_first(args: Seq<Expression>, k: int)
    requires
        1 <= k <= args.len(),
    ensures
        k < args.len() ==> args_rest(args, k).len() >= 2 && args_rest(args, k)[0].0 == TokenKind::Comma
            && args_rest(args, k) == seq![(TokenKind::Comma, seq![','])] + expr_tokens(args[k]) + args_rest(
            args,
            k + 1,
        ),
        k == args.len() ==> args_rest(args, k).len() == 0,
{
    if k < args.len() {
        lemma_expr_first(args[k]);
    }
}

/// A call at `pos`: a name, `(`, arguments separated by commas, `)`.
fn parse_call(toks: &Vec<Token>, pos: usize) -> (r: Result<(FunctionCall, usize), usize>)
    requires
        tokens_wf(toks@),
        pos + 1 < toks@.len(),
        toks@[pos as int].kind == TokenKind::Ident,
        toks@[pos + 1].kind == TokenKind::LParen,
    ensures
        r matches Ok((fc, p)) ==> pos < p <= toks@.len() && token_views(toks@).subrange(
            pos as int,
            p as int,
        ) == call_tokens(fc),
        forall|fc: FunctionCall|
            starts_at(token_views(toks@), pos as int, #[trigger] call_tokens(fc)) ==> (r matches Ok((_, p)) && p
                == pos + call_tokens(fc).len()),
    decreases toks@.len() - pos, 0nat,
{
    let ghost t = token_views(toks@);
    let n = toks.len();
    let id = ident_at(toks, pos);
    assert(wf_token(toks@[pos + 1]@));
    assert(t.subrange(pos as int, pos + 2) =~= seq![ident_tok(id), (TokenKind::LParen, seq!['('])]);
    let mut args: Vec<Expression> = Vec::new();
    if kind_at(toks, pos + 2) == Some(TokenKind::RParen) {
        assert(wf_token(toks@[pos + 2]@));
        assert(t.subrange(pos as int, pos + 3) =~= t.subrange(pos as int, pos + 2) + args_tokens(args@)
            + seq![(TokenKind::RParen, seq![')'])]);
        proof {
            assert forall|fc: FunctionCall| starts_at(t, pos as int, #[trigger] call_tokens(fc)) implies pos + 3
                == pos + call_tokens(fc).len() by {
                let a = fc.arguments@;
                if a.len() > 0 {
                    lemma_args_front(a);
                    lemma_expr_first(a[0]);
                    assert(call_tokens(fc)[2] == expr_tokens(a[0])[0]);
                    assert(t.subrange(pos as int, pos + call_tokens(fc).len())[2] == t[pos + 2]);
                }
            }
        }
        return Ok((FunctionCall { id, arguments: args }, pos + 3));
    }
    proof {
        assert forall|fc: FunctionCall| starts_at(t, pos as int, #[trigger] call_tokens(fc)) implies fc.arguments@.len()
            >= 1 && starts_at(t, pos + 2, expr_tokens(fc.arguments@[0])) && ends_expr(
            t,
            pos + 2 + expr_tokens(fc.arguments@[0]).len(),
        ) && call_rest_at(t, pos as int, fc, pos + 2 + expr_tokens(fc.arguments@[0]).len(), 1) by {
            let a = fc.arguments@;
            let ct = call_tokens(fc);
            let w = t.subrange(pos as int, pos + (ct.len() as int));
            if a.len() == 0 {
                assert(ct[2] == (TokenKind::RParen, seq![')']));
                assert(w[2] == t[pos + 2]);
            } else {
                lemma_args_front(a);
                let e0 = expr_tokens(a[0]);
                let rest = args_rest(a, 1) + seq![(TokenKind::RParen, seq![')'])];
                assert(ct =~= seq![ident_tok(fc.id), (TokenKind::LParen, seq!['('])] + e0 + rest);
                assert(t.subrange(pos + 2, pos + 2 + (e0.len() as int)) =~= w.subrange(2, 2 + (e0.len() as int)));
                assert(w.subrange(2, 2 + (e0.len() as int)) =~= e0);
                assert(t.subrange(pos + 2 + (e0.len() as int), pos + 2 + (e0.len() as int) + (rest.len() as int)) =~= w.subrange(
                    2 + (e0.len() as int),
                    (ct.len() as int),
                ));
                assert(w.subrange(2 + (e0.len() as int), (ct.len() as int)) =~= rest);
                lemma_args_rest_first(a, 1);
                assert(rest[0] == w[2 + (e0.len() as int)]);
                assert(w[2 + (e0.len() as int)] == t[pos + 2 + (e0.len() as int)]);
            }
        }
    }
    let (e0, p0) = match parse_expression(toks, pos + 2) {
        Ok(x) => x,
        Err(q) => {
            return Err(q);
        },
    };
    proof {
        lemma_args_push(args@, e0);
    }
    args.push(e0);
    let mut q = p0;
    loop
        invariant
            tokens_wf(toks@),
            n == toks@.len(),
            t == token_views(toks@),
            pos + 2 < q <= n,
            t.subrange(pos as int, pos + 2) == seq![ident_tok(id), (TokenKind::LParen, seq!['('])],
            t.subrange(pos + 2, q as int) == args_tokens(args@),
            forall|fc: FunctionCall| starts_at(t, pos as int, #[trigger] call_tokens(fc)) ==> exists|k: int|
                call_rest_at(t, pos as int, fc, q as int, k),
        decreases n - q,
    {
        if kind_at(toks, q) == Some(TokenKind::Comma) {
            proof {
                assert forall|fc: FunctionCall| starts_at(t, pos as int, #[trigger] call_tokens(fc)) implies exists|k: int|
                    k < fc.arguments@.len() && call_rest_at(t, pos as int, fc, q as int, k) && starts_at(
                        t,
                        q + 1,
                        expr_tokens(fc.arguments@[k]),
                    ) && ends_expr(t, q + 1 + expr_tokens(fc.arguments@[k]).len()) && call_rest_at(
                        t,
                        pos as int,
                        fc,
                        q + 1 + expr_tokens(fc.arguments@[k]).len(),
                        k + 1,
                    ) by {
                    let k = choose|k: int| call_rest_at(t, pos as int, fc, q as int, k);
                    let a = fc.arguments@;
                    lemma_args_rest_first(a, k);
                    let rt = args_rest(a, k) + seq![(TokenKind::RParen, seq![')'])];
                    let w = t.subrange(q as int, q + rt.len());
                    assert(w[0] == t[q as int]);
                    if k == a.len() {
                        assert(rt[0] == (TokenKind::RParen, seq![')']));
                    } else {
                        let ek = expr_tokens(a[k]);
                        let rest2 = args_rest(a, k + 1) + seq![(TokenKind::RParen, seq![')'])];
                        assert(rt =~= seq![(TokenKind::Comma, seq![','])] + ek + rest2);
                        assert(t.subrange(q + 1, q + 1 + (ek.len() as int)) =~= w.subrange(1, 1 + (ek.len() as int)));
                        assert(w.subrange(1, 1 + (ek.len() as int)) =~= ek);
                        assert(t.subrange(q + 1 + (ek.len() as int), q + 1 + (ek.len() as int) + (rest2.len() as int)) =~= w.subrange(
                            1 + (ek.len() as int),
                            (rt.len() as int),
                        ));
                        assert(w.subrange(1 + (ek.len() as int), (rt.len() as int)) =~= rest2);
                        assert(rest2[0] == w[1 + (ek.len() as int)]);
                        assert(w[1 + (ek.len() as int)] == t[q + 1 + (ek.len() as int)]);
                        if k + 1 < a.len() {
                            lemma_args_rest_first(a, k + 1);
                        }
                        assert(call_rest_at(t, pos as int, fc, q + 1 + (ek.len() as int), k + 1));
                    }
                }
            }
            let (e, p) = match parse_expression(toks, q + 1) {
                Ok(x) => x,
                Err(z) => {
                    return Err(z);
                },
            };
            proof {
                assert(wf_token(toks@[q as int]@));
                lemma_one(t, q as int);
                lemma_split(t, pos + 2, q as int, q + 1);
                lemma_split(t, pos + 2, q + 1, p as int);
                lemma_args_push(args@, e);
                assert forall|fc: FunctionCall| starts_at(t, pos as int, #[trigger] call_tokens(fc)) implies exists|k: int|
                    call_rest_at(t, pos as int, fc, p as int, k) by {
                    let k = choose|k: int|
                        k < fc.arguments@.len() && call_rest_at(t, pos as int, fc, q as int, k) && starts_at(
                            t,
                            q + 1,
                            expr_tokens(fc.arguments@[k]),
                        ) && ends_expr(t, q + 1 + expr_tokens(fc.arguments@[k]).len()) && call_rest_at(
                            t,
                            pos as int,
                            fc,
                            q + 1 + expr_tokens(fc.arguments@[k]).len(),
                            k + 1,
                        );
                    assert(call_rest_at(t, pos as int, fc, p as int, k + 1));
                }
            }
            args.push(e);
            q = p;
        } else if kind_at(toks, q) == Some(TokenKind::RParen) {
            proof {
                assert(wf_token(toks@[q as int]@));
                lemma_one(t, q as int);
                lemma_split(t, pos as int, pos + 2, q as int);
                lemma_split(t, pos as int, q as int, q + 1);
                assert forall|fc: FunctionCall| starts_at(t, pos as int, #[trigger] call_tokens(fc)) implies q + 1 == pos
                    + call_tokens(fc).len() by {
                    let k = choose|k: int| call_rest_at(t, pos as int, fc, q as int, k);
                    let a = fc.arguments@;
                    lemma_args_rest_first(a, k);
                    let rt = args_rest(a, k) + seq![(TokenKind::RParen, seq![')'])];
                    assert(t.subrange(q as int, q + rt.len())[0] == t[q as int]);
                }
            }
            let fc = FunctionCall { id, arguments: args };
            return Ok((fc, q + 1));
        } else {
            proof {
                assert forall|fc: FunctionCall| starts_at(t, pos as int, #[trigger] call_tokens(fc)) implies false by {
                    let k = choose|k: int| call_rest_at(t, pos as int, fc, q as int, k);
                    let a = fc.arguments@;
                    lemma_args_rest_first(a, k);
                    let rt = args_rest(a, k) + seq![(TokenKind::RParen, seq![')'])];
                    assert(t.subrange(q as int, q + rt.len())[0] == t[q as int]);
                }
            }
            return Err(q);
        }
    }
}

/// A typed identifier at `pos`.
fn parse_typed_ident(toks: &Vec<Token>, pos: usize) -> (r: (TypedIdentifier, usize))
    requires
        tokens_wf(toks@),
        pos < toks@.len(),
        toks@[pos as int].kind == TokenKind::Ident,
    ensures
        pos < r.1 <= toks@.len(),
        token_views(toks@).subrange(pos as int, r.1 as int) == typed_ident_tokens(r.0),
        forall|x: TypedIdentifier|
            starts_at(token_views(toks@), pos as int, #[trigger] typed_ident_tokens(x)) && no_colon(
                token_views(toks@),
                pos + typed_ident_tokens(x).len(),
            ) ==> r.1 == pos + typed_ident_tokens(x).len(),
{
    let ghost t = token_views(toks@);
    let n = toks.len();
    let id = ident_at(toks, pos);
    let (ty, p) = parse_type_suffix(toks, pos + 1);
    proof {
        lemma_one(t, pos as int);
        lemma_split(t, pos as int, pos + 1, p as int);
        assert forall|x: TypedIdentifier|
            starts_at(t, pos as int, #[trigger] typed_ident_tokens(x)) && no_colon(t, pos + typed_ident_tokens(x).len())
                implies p == pos + typed_ident_tokens(x).len() by {
            let xt = typed_ident_tokens(x);
            let sfx = type_suffix_tokens(x.ty);
            assert(xt.subrange(1, xt.len() as int) =~= sfx);
            assert(t.subrange(pos + 1, pos + 1 + sfx.len()) =~= t.subrange(pos as int, pos + xt.len()).subrange(
                1,
                xt.len() as int,
            ));
            assert(starts_at(t, pos + 1, sfx));
        }
    }
    (TypedIdentifier { identifier: id, ty }, p)
}

/// The token at `q`, if any, cannot continue a list: it is neither `,`
/// nor `:`.
pub open spec fn ends_list(t: Seq<SpecToken>, q: int) -> bool {
    q >= t.len() || (t[q].0 != TokenKind::Comma && t[q].0 != TokenKind::Colon)
}

/// Where a list of typed identifiers stands at `pos`, its entries from the
/// `k`-th on stand at `q`.
pub open spec fn typed_rest_at(t: Seq<SpecToken>, pos: int, s: Seq<TypedIdentifier>, q: int, k: int) -> bool {
    &&& 1 <= k <= s.len()
    &&& starts_at(t, q, typed_rest(s, k))
    &&& pos + typed_list_tokens(s).len() == q + typed_rest(s, k).len()
}

proof fn lemma_typed_rest_first(s: Seq<TypedIdentifier>, k: int)
    requires
        1 <= k <= s.len(),
    ensures
        k < s.len() ==> typed_rest(s, k).len() >= 2 && typed_rest(s, k)[0].0 == TokenKind::Comma
            && typed_rest(s, k)[1].0 == TokenKind::Ident && typed_rest(s, k) == seq![
            (TokenKind::Comma, seq![',']),
        ] + typed_ident_tokens(s[k]) + typed_rest(s, k + 1),
        k == s.len() ==> typed_rest(s, k).len() == 0,
{
}

/// A non-empty comma-separated list of typed identifiers at `pos`.
fn parse_typed_list(toks: &Vec<Token>, pos: usize) -> (r: Result<(Vec<TypedIdentifier>, usize), usize>)
    requires
        tokens_wf(toks@),
    ensures
        r matches Ok((l, p)) ==> pos < p <= toks@.len() && l@.len() >= 1 && token_views(
            toks@,
        ).subrange(pos as int, p as int) == typed_list_tokens(l@),
        forall|s: Seq<TypedIdentifier>|
            s.len() >= 1 && starts_at(token_views(toks@), pos as int, #[trigger] typed_list_tokens(s)) && ends_list(
                token_views(toks@),
                pos + typed_list_tokens(s).len(),
            ) ==> (r matches Ok((_, p)) && p == pos + typed_list_tokens(s).len()),
{
    let ghost t = token_views(toks@);
    let n = toks.len();
    proof {
        assert forall|s: Seq<TypedIdentifier>|
            s.len() >= 1 && starts_at(t, pos as int, #[trigger] typed_list_tokens(s)) && ends_list(
                t,
                pos + typed_list_tokens(s).len(),
            ) implies pos < n && t[pos as int].0 == TokenKind::Ident && starts_at(t, pos as int, typed_ident_tokens(s[0]))
            && no_colon(t, pos + typed_ident_tokens(s[0]).len()) && typed_rest_at(
            t,
            pos as int,
            s,
            pos + typed_ident_tokens(s[0]).len(),
            1,
        ) by {
            lemma_typed_front(s);
            let x0 = typed_ident_tokens(s[0]);
            let rest = typed_rest(s, 1);
            let all = typed_list_tokens(s);
            let w = t.subrange(pos as int, pos + all.len());
            lemma_typed_first(s[0]);
            assert(all == x0 + rest);
            assert(w[0] == t[pos as int]);
            assert(all[0] == x0[0]);
            assert(t.subrange(pos as int, pos + x0.len()) =~= w.subrange(0, x0.len() as int));
            assert(w.subrange(0, x0.len() as int) =~= x0);
            assert(t.subrange(pos + x0.len(), pos + x0.len() + rest.len()) =~= w.subrange(x0.len() as int, all.len() as int));
            assert(w.subrange(x0.len() as int, all.len() as int) =~= rest);
            lemma_typed_rest_first(s, 1);
            if rest.len() > 0 {
                assert(w[x0.len() as int] == t[pos + x0.len()]);
                assert(rest[0] == w[x0.len() as int]);
            }
        }
    }
    if kind_at(toks, pos) != Some(TokenKind::Ident) {
        return Err(pos);
    }
    let mut list: Vec<TypedIdentifier> = Vec::new();
    let (first, p0) = parse_typed_ident(toks, pos);
    proof {
        lemma_typed_push(list@, first);
    }
    list.push(first);
    let mut q = p0;
    while kind_at(toks, q) == Some(TokenKind::Comma) && kind_at(toks, q + 1) == Some(TokenKind::Ident)
        invariant
            tokens_wf(toks@),
            n == toks@.len(),
            t == token_views(toks@),
            pos < q <= n,
            list@.len() >= 1,
            t.subrange(pos as int, q as int) == typed_list_tokens(list@),
            forall|s: Seq<TypedIdentifier>|
                s.len() >= 1 && starts_at(t, pos as int, #[trigger] typed_list_tokens(s)) && ends_list(
                    t,
                    pos + typed_list_tokens(s).len(),
                ) ==> exists|k: int| typed_rest_at(t, pos as int, s, q as int, k),
        decreases n - q,
    {
        proof {
            assert forall|s: Seq<TypedIdentifier>|
                s.len() >= 1 && starts_at(t, pos as int, #[trigger] typed_list_tokens(s)) && ends_list(
                    t,
                    pos + typed_list_tokens(s).len(),
                ) implies exists|k: int|
                k < s.len() && starts_at(t, q + 1, typed_ident_tokens(s[k])) && no_colon(
                    t,
                    q + 1 + typed_ident_tokens(s[k]).len(),
                ) && typed_rest_at(t, pos as int, s, q + 1 + typed_ident_tokens(s[k]).len(), k + 1) by {
                let k = choose|k: int| typed_rest_at(t, pos as int, s, q as int, k);
                lemma_typed_rest_first(s, k);
                let rt = typed_rest(s, k);
                if k == s.len() {
                    assert(q == pos + typed_list_tokens(s).len());
                } else {
                    let xk = typed_ident_tokens(s[k]);
                    let rest2 = typed_rest(s, k + 1);
                    let w = t.subrange(q as int, q + rt.len());
                    assert(t.subrange(q + 1, q + 1 + xk.len()) =~= w.subrange(1, 1 + xk.len() as int));
                    assert(w.subrange(1, 1 + xk.len() as int) =~= xk);
                    assert(t.subrange(q + 1 + xk.len(), q + 1 + xk.len() + rest2.len()) =~= w.subrange(
                        1 + xk.len() as int,
                        rt.len() as int,
                    ));
                    assert(w.subrange(1 + xk.len() as int, rt.len() as int) =~= rest2);
                    if k + 1 < s.len() {
                        lemma_typed_rest_first(s, k + 1);
                        assert(w[1 + xk.len() as int] == t[q + 1 + xk.len()]);
                    }
                    assert(typed_rest_at(t, pos as int, s, q + 1 + xk.len(), k + 1));
                }
            }
        }
        let (ti, p) = parse_typed_ident(toks, q + 1);
        proof {
            assert(wf_token(toks@[q as int]@));
            lemma_one(t, q as int);
            lemma_split(t, pos as int, q as int, q + 1);
            lemma_split(t, pos as int, q + 1, p as int);
            lemma_typed_push(list@, ti);
            assert forall|s: Seq<TypedIdentifier>|
                s.len() >= 1 && starts_at(t, pos as int, #[trigger] typed_list_tokens(s)) && ends_list(
                    t,
                    pos + typed_list_tokens(s).len(),
                ) implies exists|k: int| typed_rest_at(t, pos as int, s, p as int, k) by {
                let k = choose|k: int|
                    k < s.len() && starts_at(t, q + 1, typed_ident_tokens(s[k])) && no_colon(
                        t,
                        q + 1 + typed_ident_tokens(s[k]).len(),
                    ) && typed_rest_at(t, pos as int, s, q + 1 + typed_ident_tokens(s[k]).len(), k + 1);
                assert(typed_rest_at(t, pos as int, s, p as int, k + 1));
            }
        }
        list.push(ti);
        q = p;
    }
    proof {
        assert forall|s: Seq<TypedIdentifier>|
            s.len() >= 1 && starts_at(t, pos as int, #[trigger] typed_list_tokens(s)) && ends_list(
                t,
                pos + typed_list_tokens(s).len(),
            ) implies q == pos + typed_list_tokens(s).len() by {
            let k = choose|k: int| typed_rest_at(t, pos as int, s, q as int, k);
            lemma_typed_rest_first(s, k);
            if k < s.len() {
                let rt = typed_rest(s, k);
                let w = t.subrange(q as int, q + rt.len());
                assert(w[0] == t[q as int]);
                assert(w[1] == t[q + 1]);
            }
        }
    }
    Ok((list, q))
}

/// Where a list of identifiers stands at `pos`, its entries from the `k`-th
/// on stand at `q`.
pub open spec fn idents_rest_at(t: Seq<SpecToken>, pos: int, s: Seq<Identifier>, q: int, k: int) -> bool {
    &&& 1 <= k <= s.len()
    &&& starts_at(t, q, idents_rest(s, k))
    &&& pos + ident_list_tokens(s).len() == q + idents_rest(s, k).len()
}

/// A non-empty comma-separated list of identifiers at `pos`.
fn parse_ident_list(toks: &Vec<Token>, pos: usize) -> (r: Result<(Vec<Identifier>, usize), usize>)
    requires
        tokens_wf(toks@),
    ensures
        r matches Ok((l, p)) ==> pos < p <= toks@.len() && l@.len() >= 1 && token_views(
            toks@,
        ).subrange(pos as int, p as int) == ident_list_tokens(l@),
        forall|s: Seq<Identifier>|
            s.len() >= 1 && starts_at(token_views(toks@), pos as int, #[trigger] ident_list_tokens(s)) && ends_list(
                token_views(toks@),
                pos + ident_list_tokens(s).len(),
            ) ==> (r matches Ok((_, p)) && p == pos + ident_list_tokens(s).len()),
{
    let ghost t = token_views(toks@);
    let n = toks.len();
    proof {
        let p1 = pos + 1;
        assert forall|s: Seq<Identifier>|
            s.len() >= 1 && starts_at(t, pos as int, #[trigger] ident_list_tokens(s)) implies pos < n && t[pos as int].0
            == TokenKind::Ident && idents_rest_at(t, pos as int, s, p1, 1) by {
            lemma_idents_front(s);
            let all = ident_list_tokens(s);
            let rest = idents_rest(s, 1);
            let w = t.subrange(pos as int, pos + all.len());
            assert(all == seq![ident_tok(s[0])] + rest);
            assert(w[0] == t[pos as int]);
            assert(t.subrange(pos + 1, pos + 1 + rest.len()) =~= w.subrange(1, all.len() as int));
            assert(w.subrange(1, all.len() as int) =~= rest);
        }
    }
    if kind_at(toks, pos) != Some(TokenKind::Ident) {
        return Err(pos);
    }
    let mut list: Vec<Identifier> = Vec::new();
    let first = ident_at(toks, pos);
    proof {
        lemma_idents_push(list@, first);
        lemma_one(t, pos as int);
    }
    list.push(first);
    let mut q = pos + 1;
    while kind_at(toks, q) == Some(TokenKind::Comma) && kind_at(toks, q + 1) == Some(TokenKind::Ident)
        invariant
            tokens_wf(toks@),
            n == toks@.len(),
            t == token_views(toks@),
            pos < q <= n,
            list@.len() >= 1,
            t.subrange(pos as int, q as int) == ident_list_tokens(list@),
            forall|s: Seq<Identifier>|
                s.len() >= 1 && starts_at(t, pos as int, #[trigger] ident_list_tokens(s)) && ends_list(
                    t,
                    pos + ident_list_tokens(s).len(),
                ) ==> exists|k: int| idents_rest_at(t, pos as int, s, q as int, k),
        decreases n - q,
    {
        let id = ident_at(toks, q + 1);
        proof {
            assert(wf_token(toks@[q as int]@));
            lemma_one(t, q as int);
            lemma_one(t, q + 1);
            lemma_split(t, pos as int, q as int, q + 1);
            lemma_split(t, pos as int, q + 1, q + 2);
            lemma_idents_push(list@, id);
            let q2 = q + 2;
            assert forall|s: Seq<Identifier>|
                s.len() >= 1 && starts_at(t, pos as int, #[trigger] ident_list_tokens(s)) && ends_list(
                    t,
                    pos + ident_list_tokens(s).len(),
                ) implies exists|k: int| idents_rest_at(t, pos as int, s, q2, k) by {
                let k = choose|k: int| idents_rest_at(t, pos as int, s, q as int, k);
                let rt = idents_rest(s, k);
                let w = t.subrange(q as int, q + rt.len());
                if k < s.len() {
                    let rest2 = idents_rest(s, k + 1);
                    assert(rt == seq![(TokenKind::Comma, seq![',']), ident_tok(s[k])] + rest2);
                    assert(t.subrange(q + 2, q + 2 + rest2.len()) =~= w.subrange(2, rt.len() as int));
                    assert(w.subrange(2, rt.len() as int) =~= rest2);
                    assert(idents_rest_at(t, pos as int, s, q + 2, k + 1));
                } else {
                    assert(q == pos + ident_list_tokens(s).len());
                }
            }
        }
        list.push(id);
        q = q + 2;
    }
    proof {
        assert forall|s: Seq<Identifier>|
            s.len() >= 1 && starts_at(t, pos as int, #[trigger] ident_list_tokens(s)) && ends_list(
                t,
                pos + ident_list_tokens(s).len(),
            ) implies q == pos + ident_list_tokens(s).len() by {
            let k = choose|k: int| idents_rest_at(t, pos as int, s, q as int, k);
            if k < s.len() {
                let rt = idents_rest(s, k);
                let w = t.subrange(q as int, q + rt.len());
                assert(rt == seq![(TokenKind::Comma, seq![',']), ident_tok(s[k])] + idents_rest(s, k + 1));
                assert(w[0] == t[q as int]);
                assert(w[1] == t[q + 1]);
            }
        }
    }
    Ok((list, q))
}

/// Where a block stands at `pos`, its statements from the `k`-th on and
/// its closing brace stand at `q`.
pub open spec fn block_rest_at(t: Seq<SpecToken>, pos: int, b: Block, q: int, k: int) -> bool {
    &&& 0 <= k <= b.statements@.len()
    &&& starts_at(t, q, stmts_rest(b.statements@, k) + seq![(TokenKind::RBrace, seq!['}'])])
    &&& pos + block_tokens(b).len() == q + stmts_rest(b.statements@, k).len() + 1
}

/// A block at `pos`: `{`, statements, `}`.
#[verifier::rlimit(60)]
fn parse_block(toks: &Vec<Token>, pos: usize) -> (r: Result<(Block, usize), usize>)
    requires
        tokens_wf(toks@),
    ensures
        r matches Ok((b, p)) ==> pos < p <= toks@.len() && token_views(toks@).subrange(
            pos as int,
            p as int,
        ) == block_tokens(b),
        forall|b: Block|
            wf_block(b) && starts_at(token_views(toks@), pos as int, #[trigger] block_tokens(b)) ==> (r matches Ok((_, p))
                && p == pos + block_tokens(b).len()),
    decreases toks@.len() - pos, 0nat,
{
    let ghost t = token_views(toks@);
    let n = toks.len();
    proof {
        let p1 = pos + 1;
        assert forall|b: Block| wf_block(b) && starts_at(t, pos as int, #[trigger] block_tokens(b)) implies t[pos as int].0
            == TokenKind::LBrace && block_rest_at(t, pos as int, b, p1, 0) by {
            lemma_stmts_front(b.statements@);
            let inner = stmts_rest(b.statements@, 0) + seq![(TokenKind::RBrace, seq!['}'])];
            assert(block_tokens(b) =~= seq![(TokenKind::LBrace, seq!['{'])] + inner);
            lemma_starts_split(t, pos as int, seq![(TokenKind::LBrace, seq!['{'])], inner);
        }
    }
    if kind_at(toks, pos) != Some(TokenKind::LBrace) {
        return Err(pos);
    }
    proof {
        assert(wf_token(toks@[pos as int]@));
        lemma_one(t, pos as int);
    }
    let mut stmts: Vec<Statement> = Vec::new();
    let mut q = pos + 1;
    assert(t.subrange(pos + 1, q as int) =~= stmts_tokens(stmts@));
    while q < n && toks[q].kind != TokenKind::RBrace
        invariant
            tokens_wf(toks@),
            n == toks@.len(),
            t == token_views(toks@),
            pos < q <= n,
            t.subrange(pos as int, pos + 1) == seq![(TokenKind::LBrace, seq!['{'])],
            t.subrange(pos + 1, q as int) == stmts_tokens(stmts@),
            forall|b: Block| wf_block(b) && starts_at(t, pos as int, #[trigger] block_tokens(b)) ==> exists|k: int|
                block_rest_at(t, pos as int, b, q as int, k),
        decreases n - q,
    {
        proof {
            assert forall|b: Block| wf_block(b) && starts_at(t, pos as int, #[trigger] block_tokens(b)) implies exists|k: int|
                k < b.statements@.len() && wf_stmt(b.statements@[k]) && starts_at(
                    t,
                    q as int,
                    stmt_tokens(b.statements@[k]),
                ) && ends_stmt(t, q + stmt_tokens(b.statements@[k]).len()) && block_rest_at(
                    t,
                    pos as int,
                    b,
                    q + stmt_tokens(b.statements@[k]).len(),
                    k + 1,
                ) by {
                let k = choose|k: int| block_rest_at(t, pos as int, b, q as int, k);
                let ss = b.statements@;
                let close = seq![(TokenKind::RBrace, seq!['}'])];
                if k == ss.len() {
                    assert(stmts_rest(ss, k) =~= Seq::<SpecToken>::empty());
                    assert(stmts_rest(ss, k) + close =~= close);
                    lemma_starts_split(t, q as int, Seq::<SpecToken>::empty(), close);
                } else {
                    let sk = stmt_tokens(ss[k]);
                    let rest = stmts_rest(ss, k + 1);
                    assert(stmts_rest(ss, k) == sk + rest);
                    assert(stmts_rest(ss, k) + close =~= sk + (rest + close));
                    lemma_starts_split(t, q as int, sk, rest + close);
                    if k + 1 < ss.len() {
                        assert(wf_stmt(ss[k + 1]));
                        lemma_stmt_first(ss[k + 1]);
                        assert(rest == stmt_tokens(ss[k + 1]) + stmts_rest(ss, k + 2));
                        assert((rest + close)[0] == rest[0]);
                    } else {
                        assert(rest =~= Seq::<SpecToken>::empty());
                        assert(rest + close =~= close);
                    }
                    assert(wf_stmt(ss[k]));
                    assert(block_rest_at(t, pos as int, b, q + sk.len(), k + 1));
                }
            }
        }
        let (st, p) = match parse_statement(toks, q) {
            Ok(x) => x,
            Err(z) => {
                proof {
                    assert forall|b: Block| wf_block(b) && starts_at(t, pos as int, #[trigger] block_tokens(b)) implies false by {
                        let k = choose|k: int|
                            k < b.statements@.len() && wf_stmt(b.statements@[k]) && starts_at(
                                t,
                                q as int,
                                stmt_tokens(b.statements@[k]),
                            ) && ends_stmt(t, q + stmt_tokens(b.statements@[k]).len()) && block_rest_at(
                                t,
                                pos as int,
                                b,
                                q + stmt_tokens(b.statements@[k]).len(),
                                k + 1,
                            );
                        assert(stmt_at(t, q as int, b.statements@[k]));
                    }
                }
                return Err(z);
            },
        };
        proof {
            lemma_split(t, pos + 1, q as int, p as int);
            lemma_stmts_push(stmts@, st);
            assert forall|b: Block| wf_block(b) && starts_at(t, pos as int, #[trigger] block_tokens(b)) implies exists|k: int|
                block_rest_at(t, pos as int, b, p as int, k) by {
                let k = choose|k: int|
                    k < b.statements@.len() && wf_stmt(b.statements@[k]) && starts_at(
                        t,
                        q as int,
                        stmt_tokens(b.statements@[k]),
                    ) && ends_stmt(t, q + stmt_tokens(b.statements@[k]).len()) && block_rest_at(
                        t,
                        pos as int,
                        b,
                        q + stmt_tokens(b.statements@[k]).len(),
                        k + 1,
                    );
                assert(stmt_at(t, q as int, b.statements@[k]));
                assert(block_rest_at(t, pos as int, b, p as int, k + 1));
            }
        }
        stmts.push(st);
        q = p;
    }
    if q >= n {
        proof {
            assert forall|b: Block| wf_block(b) && starts_at(t, pos as int, #[trigger] block_tokens(b)) implies false by {
                let k = choose|k: int| block_rest_at(t, pos as int, b, q as int, k);
            }
        }
        return Err(q);
    }
    proof {
        assert(wf_token(toks@[q as int]@));
        lemma_one(t, q as int);
        lemma_split(t, pos as int, pos + 1, q as int);
        lemma_split(t, pos as int, q as int, q + 1);
        assert forall|b: Block| wf_block(b) && starts_at(t, pos as int, #[trigger] block_tokens(b)) implies q + 1 == pos
            + block_tokens(b).len() by {
            let k = choose|k: int| block_rest_at(t, pos as int, b, q as int, k);
            let ss = b.statements@;
            let close = seq![(TokenKind::RBrace, seq!['}'])];
            if k < ss.len() {
                let sk = stmt_tokens(ss[k]);
                let rest = stmts_rest(ss, k + 1);
                assert(stmts_rest(ss, k) == sk + rest);
                assert(stmts_rest(ss, k) + close =~= sk + (rest + close));
                assert(wf_stmt(ss[k]));
                lemma_stmt_first(ss[k]);
                lemma_starts_split(t, q as int, sk, rest + close);
            } else {
                assert(stmts_rest(ss, k) =~= Seq::<SpecToken>::empty());
            }
        }
    }
    Ok((Block { statements: stmts }, q + 1))
}

/// A `for` loop at `pos`.
fn parse_for(toks: &Vec<Token>, pos: usize) -> (r: Result<(Statement, usize), usize>)
    requires
        tokens_wf(toks@),
        pos < toks@.len(),
        toks@[pos as int].kind == TokenKind::KwFor,
    ensures
        r matches Ok((st, p)) ==> pos < p <= toks@.len() && token_views(toks@).subrange(
            pos as int,
            p as int,
        ) == stmt_tokens(st),
        forall|st: Statement| #[trigger] stmt_at(token_views(toks@), pos as int, st) ==> (r matches Ok((_, p)) && p
            == pos + stmt_tokens(st).len()),
    decreases toks@.len() - pos, 1nat,
{
    let ghost t = token_views(toks@);
    let n = toks.len();
    proof {
        assert(wf_token(toks@[pos as int]@));
        lemma_one(t, pos as int);
        assert forall|st: Statement| #[trigger] stmt_at(t, pos as int, st) implies ({
            let f = st->For_0;
            let q1 = pos + 1 + block_tokens(f.init_block).len();
            let q2 = q1 + expr_tokens(f.condition).len();
            let q3 = q2 + block_tokens(f.post_block).len();
            &&& st is For
            &&& wf_block(f.init_block) && wf_block(f.post_block) && wf_block(f.execution_block)
            &&& starts_at(t, pos + 1, block_tokens(f.init_block))
            &&& starts_at(t, q1, expr_tokens(f.condition))
            &&& ends_expr(t, q2)
            &&& starts_at(t, q2, block_tokens(f.post_block))
            &&& starts_at(t, q3, block_tokens(f.execution_block))
            &&& pos + stmt_tokens(st).len() == q3 + block_tokens(f.execution_block).len()
        }) by {
            lemma_stmt_first(st);
            assert(t.subrange(pos as int, pos + stmt_tokens(st).len())[0] == t[pos as int]);
            let f = st->For_0;
            let a = block_tokens(f.init_block);
            let c = expr_tokens(f.condition);
            let b = block_tokens(f.post_block);
            let e = block_tokens(f.execution_block);
            assert(stmt_tokens(st) =~= seq![kw(TokenKind::KwFor)] + (a + (c + (b + e))));
            lemma_starts_split(t, pos as int, seq![kw(TokenKind::KwFor)], a + (c + (b + e)));
            lemma_starts_split(t, pos + 1, a, c + (b + e));
            lemma_starts_split(t, pos + 1 + a.len(), c, b + e);
            lemma_starts_split(t, pos + 1 + a.len() + c.len(), b, e);
            lemma_block_first(f.post_block);
        }
    }
    let (init_block, q1) = match parse_block(toks, pos + 1) {
        Ok(x) => x,
        Err(z) => {
            return Err(z);
        },
    };
    let (condition, q2) = match parse_expression(toks, q1) {
        Ok(x) => x,
        Err(z) => {
            return Err(z);
        },
    };
    let (post_block, q3) = match parse_block(toks, q2) {
        Ok(x) => x,
        Err(z) => {
            return Err(z);
        },
    };
    let (execution_block, p) = match parse_block(toks, q3) {
        Ok(x) => x,
        Err(z) => {
            return Err(z);
        },
    };
    proof {
        lemma_split(t, pos as int, pos + 1, q1 as int);
        lemma_split(t, pos as int, q1 as int, q2 as int);
        lemma_split(t, pos as int, q2 as int, q3 as int);
        lemma_split(t, pos as int, q3 as int, p as int);
    }
    return Ok((Statement::For(For { init_block, condition, post_block, execution_block }), p));
}

/// A variable declaration at `pos`.
fn parse_let(toks: &Vec<Token>, pos: usize) -> (r: Result<(Statement, usize), usize>)
    requires
        tokens_wf(toks@),
        pos < toks@.len(),
        toks@[pos as int].kind == TokenKind::KwLet,
    ensures
        r matches Ok((st, p)) ==> pos < p <= toks@.len() && token_views(toks@).subrange(
            pos as int,
            p as int,
        ) == stmt_tokens(st),
        forall|st: Statement| #[trigger] stmt_at(token_views(toks@), pos as int, st) ==> (r matches Ok((_, p)) && p
            == pos + stmt_tokens(st).len()),
    decreases toks@.len() - pos, 1nat,
{
    let ghost t = token_views(toks@);
    let n = toks.len();
    proof {
        assert(wf_token(toks@[pos as int]@));
        lemma_one(t, pos as int);
        assert forall|st: Statement| #[trigger] stmt_at(t, pos as int, st) implies ({
            let v = st->VariableDeclaration_0;
            let q = pos + 1 + typed_list_tokens(v.identifiers@).len();
            &&& st is VariableDeclaration
            &&& v.identifiers@.len() >= 1
            &&& starts_at(t, pos + 1, typed_list_tokens(v.identifiers@))
            &&& ends_list(t, q)
            &&& match v.value {
                Some(e) => q < t.len() && t[q].0 == TokenKind::Assign && starts_at(t, q + 1, expr_tokens(e)) && ends_expr(
                    t,
                    q + 1 + expr_tokens(e).len(),
                ) && pos + stmt_tokens(st).len() == q + 1 + expr_tokens(e).len(),
                None => (q >= t.len() || t[q].0 != TokenKind::Assign) && pos + stmt_tokens(st).len() == q,
            }
        }) by {
            lemma_stmt_first(st);
            assert(t.subrange(pos as int, pos + stmt_tokens(st).len())[0] == t[pos as int]);
            let v = st->VariableDeclaration_0;
            let lt = typed_list_tokens(v.identifiers@);
            let end = pos + stmt_tokens(st).len();
            match v.value {
                Some(e) => {
                    let asg = seq![(TokenKind::Assign, seq![':', '='])];
                    let et = expr_tokens(e);
                    assert(stmt_tokens(st) =~= seq![kw(TokenKind::KwLet)] + (lt + (asg + et)));
                    lemma_starts_split(t, pos as int, seq![kw(TokenKind::KwLet)], lt + (asg + et));
                    lemma_starts_split(t, pos + 1, lt, asg + et);
                    lemma_starts_split(t, pos + 1 + lt.len(), asg, et);
                    if end < t.len() {
                        assert(t[end].0 == TokenKind::RBrace || is_stmt_start(t[end].0));
                    }
                },
                None => {
                    assert(stmt_tokens(st) =~= seq![kw(TokenKind::KwLet)] + lt);
                    lemma_starts_split(t, pos as int, seq![kw(TokenKind::KwLet)], lt);
                    if end < t.len() {
                        assert(t[end].0 == TokenKind::RBrace || is_stmt_start(t[end].0));
                    }
                },
            }
        }
    }
    let (identifiers, q) = match parse_typed_list(toks, pos + 1) {
        Ok(x) => x,
        Err(z) => {
            return Err(z);
        },
    };
    proof {
        lemma_split(t, pos as int, pos + 1, q as int);
    }
    if kind_at(toks, q) == Some(TokenKind::Assign) {
        let (e, p) = match parse_expression(toks, q + 1) {
            Ok(x) => x,
            Err(z) => {
                return Err(z);
            },
        };
        proof {
            assert(wf_token(toks@[q as int]@));
            lemma_one(t, q as int);
            lemma_split(t, pos as int, q as int, q + 1);
            lemma_split(t, pos as int, q + 1, p as int);
        }
        return Ok((Statement::VariableDeclaration(VariableDeclaration { identifiers, value: Some(e) }), p));
    }
    assert(t.subrange(pos as int, q as int) =~= t.subrange(pos as int, q as int) + Seq::<SpecToken>::empty());
    return Ok((Statement::VariableDeclaration(VariableDeclaration { identifiers, value: None }), q));
}

/// Where a function definition `st` stands at `pos`: its name and `(`, its
/// parameters, `)`, its returns and its body, each where the parser looks
/// for it.
pub open spec fn function_shape(t: Seq<SpecToken>, pos: int, st: Statement) -> bool {
    let f = st->FunctionDefinition_0;
    let pt = typed_list_tokens(f.params@);
    let rt = typed_list_tokens(f.returns@);
    let qa = pos + 3 + pt.len();
    let qb = qa + 1;
    let qc = if f.returns@.len() == 0 {
        qb
    } else {
        qb + 1 + rt.len()
    };
    &&& st is FunctionDefinition
    &&& wf_block(f.body)
    &&& pos + 2 < t.len() && t[pos + 1].0 == TokenKind::Ident && t[pos + 2].0 == TokenKind::LParen
    &&& (f.params@.len() == 0 ==> pt.len() == 0)
    &&& (f.params@.len() > 0 ==> starts_at(t, pos + 3, pt) && ends_list(t, qa) && t[pos + 3].0
        == TokenKind::Ident)
    &&& qa < t.len() && t[qa].0 == TokenKind::RParen
    &&& (f.returns@.len() == 0 ==> qb < t.len() && t[qb].0 != TokenKind::Arrow)
    &&& (f.returns@.len() > 0 ==> qb < t.len() && t[qb].0 == TokenKind::Arrow && starts_at(t, qb + 1, rt)
        && ends_list(t, qb + 1 + rt.len()))
    &&& starts_at(t, qc, block_tokens(f.body))
    &&& pos + stmt_tokens(st).len() == qc + block_tokens(f.body).len()
}

proof fn lemma_function_shape(t: Seq<SpecToken>, pos: int, st: Statement)
    requires
        stmt_at(t, pos, st),
        0 <= pos < t.len(),
        t[pos].0 == TokenKind::KwFunction,
    ensures
        function_shape(t, pos, st),
{
    lemma_stmt_first(st);
    assert(t.subrange(pos as int, pos + stmt_tokens(st).len())[0] == t[pos as int]);
    let f = st->FunctionDefinition_0;
    let head = seq![kw(TokenKind::KwFunction), ident_tok(f.name), (TokenKind::LParen, seq!['('])];
    let pt = typed_list_tokens(f.params@);
    let close = seq![(TokenKind::RParen, seq![')'])];
    let rt = typed_list_tokens(f.returns@);
    let rpart = if f.returns@.len() == 0 {
        Seq::<SpecToken>::empty()
    } else {
        seq![(TokenKind::Arrow, seq!['-', '>'])] + rt
    };
    let bt = block_tokens(f.body);
    assert(stmt_tokens(st) =~= head + (pt + (close + (rpart + bt))));
    lemma_starts_split(t, pos as int, head, pt + (close + (rpart + bt)));
    assert(t.subrange(pos as int, pos + 3) == head);
    assert(t.subrange(pos as int, pos + 3)[1] == t[pos + 1]);
    assert(t.subrange(pos as int, pos + 3)[2] == t[pos + 2]);
    lemma_starts_split(t, pos + 3, pt, close + (rpart + bt));
    lemma_starts_split(t, pos + 3 + pt.len(), close, rpart + bt);
    lemma_starts_split(t, pos + 4 + pt.len(), rpart, bt);
    lemma_block_first(f.body);
    if f.params@.len() > 0 {
        lemma_typed_front(f.params@);
        lemma_typed_first(f.params@[0]);
        assert(pt[0] == typed_ident_tokens(f.params@[0])[0]);
    }
    if f.returns@.len() > 0 {
        lemma_typed_front(f.returns@);
        assert(rpart + bt =~= seq![(TokenKind::Arrow, seq!['-', '>'])] + (rt + bt));
        lemma_starts_split(t, pos + 4 + pt.len(), seq![(TokenKind::Arrow, seq!['-', '>'])], rt + bt);
        lemma_starts_split(t, pos + 5 + pt.len(), rt, bt);
    } else {
        assert(rpart + bt =~= bt);
    }
}

/// A function definition at `pos`.
#[verifier::rlimit(60)]
fn parse_function_definition(toks: &Vec<Token>, pos: usize) -> (r: Result<(Statement, usize), usize>)
    requires
        tokens_wf(toks@),
        pos < toks@.len(),
        toks@[pos as int].kind == TokenKind::KwFunction,
    ensures
        r matches Ok((st, p)) ==> pos < p <= toks@.len() && token_views(toks@).subrange(
            pos as int,
            p as int,
        ) == stmt_tokens(st),
        forall|st: Statement| #[trigger] stmt_at(token_views(toks@), pos as int, st) ==> (r matches Ok((_, p)) && p
            == pos + stmt_tokens(st).len()),
    decreases toks@.len() - pos, 1nat,
{
    let ghost t = token_views(toks@);
    let n = toks.len();
    proof {
        assert(wf_token(toks@[pos as int]@));
        lemma_one(t, pos as int);
        assert forall|st: Statement| #[trigger] stmt_at(t, pos as int, st) implies function_shape(t, pos as int, st) by {
            lemma_function_shape(t, pos as int, st);
        }
    }
    if kind_at(toks, pos + 1) != Some(TokenKind::Ident) || kind_at(toks, pos + 2) != Some(TokenKind::LParen) {
        return Err(pos + 1);
    }
    let name = ident_at(toks, pos + 1);
    proof {
        assert(wf_token(toks@[pos + 2]@));
        lemma_one(t, pos + 1);
        lemma_one(t, pos + 2);
        lemma_split(t, pos as int, pos + 1, pos + 2);
        lemma_split(t, pos as int, pos + 2, pos + 3);
    }
    let mut q = pos + 3;
    let mut params: Vec<TypedIdentifier> = Vec::new();
    if kind_at(toks, q) != Some(TokenKind::RParen) {
        let (ps, q2) = match parse_typed_list(toks, q) {
            Ok(x) => x,
            Err(z) => {
                return Err(z);
            },
        };
        params = ps;
        q = q2;
    } else {
        assert(t.subrange(q as int, q as int) =~= typed_list_tokens(params@));
    }
    if kind_at(toks, q) != Some(TokenKind::RParen) {
        return Err(q);
    }
    proof {
        assert(wf_token(toks@[q as int]@));
        lemma_one(t, q as int);
        lemma_split(t, pos as int, pos + 3, q as int);
        lemma_split(t, pos as int, q as int, q + 1);
    }
    let ghost head = t.subrange(pos as int, q + 1);
    q = q + 1;
    let mut rets: Vec<TypedIdentifier> = Vec::new();
    if kind_at(toks, q) == Some(TokenKind::Arrow) {
        let (rs, q2) = match parse_typed_list(toks, q + 1) {
            Ok(x) => x,
            Err(z) => {
                return Err(z);
            },
        };
        proof {
            assert(wf_token(toks@[q as int]@));
            lemma_one(t, q as int);
            lemma_split(t, q as int, q + 1, q2 as int);
            lemma_split(t, pos as int, q as int, q2 as int);
        }
        rets = rs;
        q = q2;
    } else {
        assert(t.subrange(pos as int, q as int) =~= head + Seq::<SpecToken>::empty());
    }
    let (body, p) = match parse_block(toks, q) {
        Ok(x) => x,
        Err(z) => {
            return Err(z);
        },
    };
    proof {
        lemma_split(t, pos as int, q as int, p as int);
    }
    return Ok((Statement::FunctionDefinition(FunctionDefinition { name, params, returns: rets, body }), p));
}

/// The cases of a switch.
pub open spec fn switch_cases(sw: Switch) -> Seq<Case> {
    match sw.opt {
        SwitchOptions::Cases(cs, _) => cs@,
        SwitchOptions::Default(_) => Seq::empty(),
    }
}

/// The tokens of the default of a switch, if it has one.
pub open spec fn switch_default_tokens(sw: Switch) -> Seq<SpecToken> {
    match sw.opt {
        SwitchOptions::Cases(_, d) => match d {
            Some(dd) => seq![kw(TokenKind::KwDefault)] + block_tokens(dd.body),
            None => Seq::empty(),
        },
        SwitchOptions::Default(dd) => seq![kw(TokenKind::KwDefault)] + block_tokens(dd.body),
    }
}

/// What a switch that the parser can produce holds of its parts.
proof fn lemma_switch_wf(st: Statement)
    requires
        wf_stmt(st),
        st is Switch,
    ensures
        wf_cases(switch_cases(st->Switch_0)),
        forall|k: int| 0 <= k < switch_cases(st->Switch_0).len() ==> wf_block(#[trigger] switch_cases(st->Switch_0)[k].body),
{
    let sw = st->Switch_0;
    assert(st == Statement::Switch(sw));
    match sw.opt {
        SwitchOptions::Cases(c, d) => {
            assert(wf_cases(c@));
        },
        SwitchOptions::Default(_) => {},
    }
}

/// Where a switch `st` stands at `pos`, its cases from the `k`-th on and its
/// default stand at `q`.
pub open spec fn switch_rest_at(t: Seq<SpecToken>, pos: int, st: Statement, q: int, k: int) -> bool {
    let sw = st->Switch_0;
    &&& 0 <= k <= switch_cases(sw).len()
    &&& starts_at(t, q, cases_rest(switch_cases(sw), k) + switch_default_tokens(sw))
    &&& pos + stmt_tokens(st).len() == q + cases_rest(switch_cases(sw), k).len() + switch_default_tokens(sw).len()
}

/// A `switch` at `pos`.
#[verifier::rlimit(60)]
fn parse_switch(toks: &Vec<Token>, pos: usize) -> (r: Result<(Statement, usize), usize>)
    requires
        tokens_wf(toks@),
        pos < toks@.len(),
        toks@[pos as int].kind == TokenKind::KwSwitch,
    ensures
        r matches Ok((st, p)) ==> pos < p <= toks@.len() && token_views(toks@).subrange(
            pos as int,
            p as int,
        ) == stmt_tokens(st),
        forall|st: Statement| #[trigger] stmt_at(token_views(toks@), pos as int, st) ==> (r matches Ok((_, p)) && p
            == pos + stmt_tokens(st).len()),
    decreases toks@.len() - pos, 1nat,
{
    let ghost t = token_views(toks@);
    let n = toks.len();
    proof {
        assert(wf_token(toks@[pos as int]@));
        lemma_one(t, pos as int);
        assert forall|st: Statement| #[trigger] stmt_at(t, pos as int, st) implies ({
            let sw = st->Switch_0;
            let ct = expr_tokens(sw.condition);
            &&& st is Switch
            &&& starts_at(t, pos + 1, ct)
            &&& ends_expr(t, pos + 1 + ct.len())
            &&& switch_rest_at(t, pos as int, st, pos + 1 + ct.len(), 0)
        }) by {
            lemma_stmt_first(st);
            assert(t.subrange(pos as int, pos + stmt_tokens(st).len())[0] == t[pos as int]);
            let sw = st->Switch_0;
            let ct = expr_tokens(sw.condition);
            let cs = switch_cases(sw);
            let dt = switch_default_tokens(sw);
            lemma_cases_front(cs);
            let body = cases_rest(cs, 0) + dt;
            assert(stmt_tokens(st) =~= seq![kw(TokenKind::KwSwitch)] + (ct + body));
            lemma_starts_split(t, pos as int, seq![kw(TokenKind::KwSwitch)], ct + body);
            lemma_starts_split(t, pos + 1, ct, body);
            if cs.len() > 0 {
                assert(cases_rest(cs, 0)[0] == kw(TokenKind::KwCase));
                assert(body[0] == kw(TokenKind::KwCase));
            } else {
                assert(cases_rest(cs, 0) =~= Seq::<SpecToken>::empty());
                assert(body =~= dt);
                assert(dt[0] == kw(TokenKind::KwDefault));
            }
        }
    }
    let (condition, q0) = match parse_expression(toks, pos + 1) {
        Ok(x) => x,
        Err(z) => {
            return Err(z);
        },
    };
    proof {
        lemma_split(t, pos as int, pos + 1, q0 as int);
    }
    let mut cases: Vec<Case> = Vec::new();
    let mut q = q0;
    assert(t.subrange(q0 as int, q as int) =~= cases_tokens(cases@));
    while kind_at(toks, q) == Some(TokenKind::KwCase)
        invariant
            tokens_wf(toks@),
            n == toks@.len(),
            t == token_views(toks@),
            pos < q0 <= q <= n,
            toks@[pos as int].kind == TokenKind::KwSwitch,
            t.subrange(q0 as int, q as int) == cases_tokens(cases@),
            forall|st: Statement| #[trigger] stmt_at(t, pos as int, st) ==> switch_rest_at(
                t,
                pos as int,
                st,
                q as int,
                cases@.len() as int,
            ),
        decreases n - q,
    {
        proof {
            assert forall|st: Statement| #[trigger] stmt_at(t, pos as int, st) implies ({
                let cs = switch_cases(st->Switch_0);
                let k = cases@.len() as int;
                let lt = literal_tokens(cs[k].case);
                &&& k < cs.len()
                &&& wf_block(cs[k].body)
                &&& starts_at(t, q + 1, lt)
                &&& no_colon(t, q + 1 + lt.len())
                &&& starts_at(t, q + 1 + lt.len(), block_tokens(cs[k].body))
                &&& switch_rest_at(t, pos as int, st, q + 1 + lt.len() + block_tokens(cs[k].body).len(), k + 1)
            }) by {
                lemma_stmt_first(st);
                assert(t.subrange(pos as int, pos + stmt_tokens(st).len())[0] == t[pos as int]);
                let sw = st->Switch_0;
                let cs = switch_cases(sw);
                let dt = switch_default_tokens(sw);
                let k = cases@.len() as int;
                if k == cs.len() {
                    assert(cases_rest(cs, k) =~= Seq::<SpecToken>::empty());
                    assert(cases_rest(cs, k) + dt =~= dt);
                    if dt.len() > 0 {
                        lemma_starts_split(t, q as int, Seq::<SpecToken>::empty(), dt);
                        assert(dt[0] == kw(TokenKind::KwDefault));
                    } else {
                        assert(q == pos + stmt_tokens(st).len());
                    }
                } else {
                    let lt = literal_tokens(cs[k].case);
                    let bt = block_tokens(cs[k].body);
                    let rest = cases_rest(cs, k + 1) + dt;
                    assert(cases_rest(cs, k) + dt =~= seq![kw(TokenKind::KwCase)] + (lt + (bt + rest)));
                    lemma_starts_split(t, q as int, seq![kw(TokenKind::KwCase)], lt + (bt + rest));
                    lemma_starts_split(t, q + 1, lt, bt + rest);
                    lemma_starts_split(t, q + 1 + lt.len(), bt, rest);
                    lemma_block_first(cs[k].body);
                    lemma_switch_wf(st);
                    assert(wf_block(cs[k].body));
                }
            }
        }
        let (case, q2) = match parse_literal(toks, q + 1) {
            Ok(x) => x,
            Err(z) => {
                return Err(z);
            },
        };
        let (body, q3) = match parse_block(toks, q2) {
            Ok(x) => x,
            Err(z) => {
                return Err(z);
            },
        };
        proof {
            assert(wf_token(toks@[q as int]@));
            lemma_one(t, q as int);
            lemma_split(t, q0 as int, q as int, q + 1);
            lemma_split(t, q0 as int, q + 1, q2 as int);
            lemma_split(t, q0 as int, q2 as int, q3 as int);
            lemma_cases_push(cases@, Case { case, body });
        }
        cases.push(Case { case, body });
        q = q3;
    }
    proof {
        assert forall|st: Statement| #[trigger] stmt_at(t, pos as int, st) implies ({
            let sw = st->Switch_0;
            let dt = switch_default_tokens(sw);
            &&& cases@.len() == switch_cases(sw).len()
            &&& (dt.len() > 0 ==> q < t.len() && t[q as int].0 == TokenKind::KwDefault && wf_block(
                match sw.opt {
                    SwitchOptions::Cases(_, d) => d->Some_0.body,
                    SwitchOptions::Default(dd) => dd.body,
                },
            ) && starts_at(
                t,
                q + 1,
                block_tokens(
                    match sw.opt {
                        SwitchOptions::Cases(_, d) => d->Some_0.body,
                        SwitchOptions::Default(dd) => dd.body,
                    },
                ),
            ) && pos + stmt_tokens(st).len() == q + dt.len())
            &&& (dt.len() == 0 ==> (q >= t.len() || t[q as int].0 != TokenKind::KwDefault) && pos + stmt_tokens(st).len()
                == q && cases@.len() > 0)
        }) by {
            lemma_stmt_first(st);
            assert(t.subrange(pos as int, pos + stmt_tokens(st).len())[0] == t[pos as int]);
            let sw = st->Switch_0;
            let cs = switch_cases(sw);
            let dt = switch_default_tokens(sw);
            let k = cases@.len() as int;
            if k < cs.len() {
                let lt = literal_tokens(cs[k].case);
                let bt = block_tokens(cs[k].body);
                let rest = cases_rest(cs, k + 1) + dt;
                assert(cases_rest(cs, k) + dt =~= seq![kw(TokenKind::KwCase)] + (lt + (bt + rest)));
                lemma_starts_split(t, q as int, seq![kw(TokenKind::KwCase)], lt + (bt + rest));
            } else {
                assert(cases_rest(cs, k) =~= Seq::<SpecToken>::empty());
                assert(cases_rest(cs, k) + dt =~= dt);
                if dt.len() > 0 {
                    let db = match sw.opt {
                        SwitchOptions::Cases(_, d) => d->Some_0.body,
                        SwitchOptions::Default(dd) => dd.body,
                    };
                    assert(dt == seq![kw(TokenKind::KwDefault)] + block_tokens(db));
                    lemma_starts_split(t, q as int, seq![kw(TokenKind::KwDefault)], block_tokens(db));
                } else {
                    let e = pos + stmt_tokens(st).len();
                    if e < t.len() {
                        assert(t[e].0 == TokenKind::RBrace || is_stmt_start(t[e].0));
                    }
                }
            }
        }
    }
    let mut dflt: Option<SwitchDefault> = None;
    let mut p = q;
    if kind_at(toks, q) == Some(TokenKind::KwDefault) {
        let (body, q2) = match parse_block(toks, q + 1) {
            Ok(x) => x,
            Err(z) => {
                return Err(z);
            },
        };
        proof {
            assert(wf_token(toks@[q as int]@));
            lemma_one(t, q as int);
            lemma_split(t, q as int, q + 1, q2 as int);
            lemma_split(t, q0 as int, q as int, q2 as int);
        }
        dflt = Some(SwitchDefault { body });
        p = q2;
    } else {
        assert(t.subrange(q0 as int, p as int) =~= t.subrange(q0 as int, q as int) + Seq::<SpecToken>::empty());
    }
    proof {
        lemma_split(t, pos as int, q0 as int, p as int);
    }
    if cases.len() == 0 {
        match dflt {
            Some(d) => {
                assert(t.subrange(q0 as int, q as int) =~= Seq::<SpecToken>::empty());
                assert(t.subrange(q0 as int, p as int) =~= t.subrange(q as int, p as int));
                return Ok((Statement::Switch(Switch { condition, opt: SwitchOptions::Default(d) }), p));
            },
            None => {
                return Err(q);
            },
        }
    }
    return Ok((Statement::Switch(Switch { condition, opt: SwitchOptions::Cases(cases, dflt) }), p));
}

/// A statement at `pos`.
fn parse_statement(toks: &Vec<Token>, pos: usize) -> (r: Result<(Statement, usize), usize>)
    requires
        tokens_wf(toks@),
        pos < toks@.len(),
    ensures
        r matches Ok((st, p)) ==> pos < p <= toks@.len() && token_views(toks@).subrange(
            pos as int,
            p as int,
        ) == stmt_tokens(st),
        forall|st: Statement| #[trigger] stmt_at(token_views(toks@), pos as int, st) ==> (r matches Ok((_, p)) && p
            == pos + stmt_tokens(st).len()),
    decreases toks@.len() - pos, 2nat,
{
    let ghost t = token_views(toks@);
    let n = toks.len();
    let k = toks[pos].kind;
    proof {
        assert(wf_token(toks@[pos as int]@));
        lemma_one(t, pos as int);
        assert forall|st: Statement| #[trigger] stmt_at(t, pos as int, st) implies t[pos as int] == stmt_tokens(st)[0] by {
            lemma_stmt_first(st);
            assert(t.subrange(pos as int, pos + stmt_tokens(st).len())[0] == t[pos as int]);
        }
    }
    if k == TokenKind::LBrace {
        proof {
            assert forall|st: Statement| #[trigger] stmt_at(t, pos as int, st) implies st is Block && wf_block(st->Block_0)
                && starts_at(t, pos as int, block_tokens(st->Block_0)) by {
                lemma_stmt_first(st);
            }
        }
        return match parse_block(toks, pos) {
            Ok((b, p)) => Ok((Statement::Block(b), p)),
            Err(z) => Err(z),
        };
    }
    if k == TokenKind::KwBreak {
        proof {
            assert forall|st: Statement| #[trigger] stmt_at(t, pos as int, st) implies stmt_tokens(st).len() == 1 by {
                lemma_stmt_first(st);
            }
        }
        return Ok((Statement::Break, pos + 1));
    }
    if k == TokenKind::KwContinue {
        proof {
            assert forall|st: Statement| #[trigger] stmt_at(t, pos as int, st) implies stmt_tokens(st).len() == 1 by {
                lemma_stmt_first(st);
            }
        }
        return Ok((Statement::Continue, pos + 1));
    }
    if k == TokenKind::KwLeave {
        proof {
            assert forall|st: Statement| #[trigger] stmt_at(t, pos as int, st) implies stmt_tokens(st).len() == 1 by {
                lemma_stmt_first(st);
            }
        }
        return Ok((Statement::Leave, pos + 1));
    }
    if k == TokenKind::KwIf {
        proof {
            assert forall|st: Statement| #[trigger] stmt_at(t, pos as int, st) implies st is If && starts_at(
                t,
                pos + 1,
                expr_tokens(st->If_0.cond),
            ) && ends_expr(t, pos + 1 + expr_tokens(st->If_0.cond).len()) && wf_block(st->If_0.body) && starts_at(
                t,
                pos + 1 + expr_tokens(st->If_0.cond).len(),
                block_tokens(st->If_0.body),
            ) && stmt_tokens(st).len() == 1 + expr_tokens(st->If_0.cond).len() + block_tokens(st->If_0.body).len() by {
                lemma_stmt_first(st);
                let i = st->If_0;
                let ct = expr_tokens(i.cond);
                let bt = block_tokens(i.body);
                assert(stmt_tokens(st) =~= seq![kw(TokenKind::KwIf)] + (ct + bt));
                lemma_starts_split(t, pos as int, seq![kw(TokenKind::KwIf)], ct + bt);
                lemma_starts_split(t, pos + 1, ct, bt);
                lemma_block_first(i.body);
            }
        }
        let (cond, q) = match parse_expression(toks, pos + 1) {
            Ok(x) => x,
            Err(z) => {
                return Err(z);
            },
        };
        let (body, p) = match parse_block(toks, q) {
            Ok(x) => x,
            Err(z) => {
                return Err(z);
            },
        };
        proof {
            lemma_split(t, pos as int, pos + 1, q as int);
            lemma_split(t, pos as int, q as int, p as int);
        }
        return Ok((Statement::If(If { cond, body }), p));
    }
    if k == TokenKind::KwFor {
        return parse_for(toks, pos);
    }
    if k == TokenKind::KwLet {
        return parse_let(toks, pos);
    }
    if k == TokenKind::KwFunction {
        return parse_function_definition(toks, pos);
    }
    if k == TokenKind::KwSwitch {
        return parse_switch(toks, pos);
    }
    if k == TokenKind::Ident {
        if kind_at(toks, pos + 1) == Some(TokenKind::LParen) {
            proof {
                assert forall|st: Statement| #[trigger] stmt_at(t, pos as int, st) implies st is FunctionCall && starts_at(
                    t,
                    pos as int,
                    call_tokens(st->FunctionCall_0),
                ) by {
                    lemma_stmt_first(st);
                    if st is Assignment {
                        let a = st->Assignment_0;
                        lemma_idents_front(a.identifiers@);
                        let lt = ident_list_tokens(a.identifiers@);
                        let rest = idents_rest(a.identifiers@, 1) + seq![(TokenKind::Assign, seq![':', '='])] + expr_tokens(a.value);
                        assert(stmt_tokens(st) =~= seq![ident_tok(a.identifiers@[0])] + rest);
                        lemma_starts_split(t, pos as int, seq![ident_tok(a.identifiers@[0])], rest);
                        if a.identifiers@.len() > 1 {
                            assert(idents_rest(a.identifiers@, 1)[0].0 == TokenKind::Comma);
                        } else {
                            assert(idents_rest(a.identifiers@, 1) =~= Seq::<SpecToken>::empty());
                        }
                    }
                }
            }
            return match parse_call(toks, pos) {
                Ok((fc, p)) => Ok((Statement::FunctionCall(fc), p)),
                Err(z) => Err(z),
            };
        }
        proof {
            assert forall|st: Statement| #[trigger] stmt_at(t, pos as int, st) implies st is Assignment && starts_at(
                t,
                pos as int,
                ident_list_tokens(st->Assignment_0.identifiers@),
            ) && st->Assignment_0.identifiers@.len() >= 1 && ends_list(
                t,
                pos + ident_list_tokens(st->Assignment_0.identifiers@).len(),
            ) && t[pos + ident_list_tokens(st->Assignment_0.identifiers@).len()].0 == TokenKind::Assign && starts_at(
                t,
                pos + ident_list_tokens(st->Assignment_0.identifiers@).len() + 1,
                expr_tokens(st->Assignment_0.value),
            ) && ends_expr(t, pos + stmt_tokens(st).len()) && stmt_tokens(st).len() == ident_list_tokens(
                st->Assignment_0.identifiers@,
            ).len() + 1 + expr_tokens(st->Assignment_0.value).len() by {
                lemma_stmt_first(st);
                if st is FunctionCall {
                    let fc = st->FunctionCall_0;
                    assert(stmt_tokens(st)[1] == (TokenKind::LParen, seq!['(']));
                    assert(t.subrange(pos as int, pos + stmt_tokens(st).len())[1] == t[pos + 1]);
                } else {
                    let a = st->Assignment_0;
                    let lt = ident_list_tokens(a.identifiers@);
                    let asg = seq![(TokenKind::Assign, seq![':', '='])];
                    let et = expr_tokens(a.value);
                    assert(stmt_tokens(st) =~= lt + (asg + et));
                    lemma_starts_split(t, pos as int, lt, asg + et);
                    lemma_starts_split(t, pos + lt.len(), asg, et);
                    let e_end = pos + stmt_tokens(st).len();
                    if e_end < t.len() {
                        assert(t[e_end].0 == TokenKind::RBrace || is_stmt_start(t[e_end].0));
                    }
                }
            }
        }
        let (identifiers, q) = match parse_ident_list(toks, pos) {
            Ok(x) => x,
            Err(z) => {
                return Err(z);
            },
        };
        if kind_at(toks, q) != Some(TokenKind::Assign) {
            return Err(q);
        }
        let (value, p) = match parse_expression(toks, q + 1) {
            Ok(x) => x,
            Err(z) => {
                return Err(z);
            },
        };
        proof {
            assert(wf_token(toks@[q as int]@));
            lemma_one(t, q as int);
            lemma_split(t, pos as int, q as int, q + 1);
            lemma_split(t, pos as int, q + 1, p as int);
        }
        return Ok((Statement::Assignment(Assignment { identifiers, value }), p));
    }
    proof {
        assert forall|st: Statement| #[trigger] stmt_at(t, pos as int, st) implies false by {
            lemma_stmt_first(st);
        }
    }
    Err(pos)
}

proof fn lemma_segments_push(s: Seq<InnerSegment>, g: InnerSegment)
    ensures
        segments_tokens(s.push(g)) == segments_tokens(s) + match g {
            InnerSegment::Object(b) => object_tokens(*b),
            InnerSegment::Data(name, d) => seq![
                (TokenKind::Ident, data_word()),
                (TokenKind::Str, name@),
                data_literal_token(d),
            ],
        },
{
    assert(s.push(g).drop_last() =~= s);
}

/// Whether the text of a token is `w`.
fn text_is(s: &String, w: &str) -> (r: bool)
    ensures
        r == (s@ == w@),
{
    let ss = s.as_str();
    let len = w.unicode_len();
    if ss.unicode_len() != len {
        return false;
    }
    let mut k: usize = 0;
    while k < len
        invariant
            ss@ == s@,
            len == w@.len(),
            len == s@.len(),
            k <= len,
            forall|m: int| 0 <= m < k ==> s@[m] == w@[m],
        decreases len - k,
    {
        if ss.get_char(k) != w.get_char(k) {
            return false;
        }
        k = k + 1;
    }
    assert(s@ =~= w@);
    true
}

/// Whether the token at `pos` is the word `w`.
fn word_at(toks: &Vec<Token>, pos: usize, w: &str) -> (r: bool)
    ensures
        r == (pos < toks@.len() && toks@[pos as int].kind == TokenKind::Ident && toks@[pos as int].text@
            == w@),
{
    if pos < toks.len() && toks[pos].kind == TokenKind::Ident {
        text_is(&toks[pos].text, w)
    } else {
        false
    }
}

/// Where an object stands at `pos`, its segments from the `k`-th on and its
/// closing brace stand at `q`.
pub open spec fn object_rest_at(t: Seq<SpecToken>, pos: int, o: Object, q: int, k: int) -> bool {
    &&& 0 <= k <= o.inner_segments@.len()
    &&& starts_at(t, q, segments_rest(o.inner_segments@, k) + seq![(TokenKind::RBrace, seq!['}'])])
    &&& pos + object_tokens(o).len() == q + segments_rest(o.inner_segments@, k).len() + 1
}

/// The tokens of a segment start with the word `object` or `data`.
proof fn lemma_segment_first(g: InnerSegment)
    ensures
        segment_tokens(g).len() >= 3,
        segment_tokens(g)[0].0 == TokenKind::Ident,
        g is Object ==> segment_tokens(g)[0].1 == object_word() && segment_tokens(g) == object_tokens(*(g->Object_0)),
        g is Data ==> segment_tokens(g)[0].1 == data_word() && segment_tokens(g).len() == 3 && segment_tokens(g)[1].0
            == TokenKind::Str && (segment_tokens(g)[2].0 == TokenKind::HexStr || segment_tokens(g)[2].0
            == TokenKind::Str),
{
    match g {
        InnerSegment::Object(b) => {
            lemma_block_first(b.code);
        },
        InnerSegment::Data(_, d) => {},
    }
}

/// An object at `pos`: `object "name" { code { ... } segments }`.
fn parse_object(toks: &Vec<Token>, pos: usize) -> (r: Result<(Object, usize), usize>)
    requires
        tokens_wf(toks@),
    ensures
        r matches Ok((o, p)) ==> pos < p <= toks@.len() && token_views(toks@).subrange(
            pos as int,
            p as int,
        ) == object_tokens(o),
        forall|o: Object|
            wf_object(o) && starts_at(token_views(toks@), pos as int, #[trigger] object_tokens(o)) ==> (r matches Ok((_, p))
                && p == pos + object_tokens(o).len()),
    decreases toks@.len() - pos,
{
    let ghost t = token_views(toks@);
    let n = toks.len();
    proof {
        reveal_strlit("object");
        reveal_strlit("code");
        reveal_strlit("data");
        assert("object"@ =~= object_word());
        assert("code"@ =~= code_word());
        assert("data"@ =~= data_word());
        let p4 = pos + 4;
        assert forall|o: Object| wf_object(o) && starts_at(t, pos as int, #[trigger] object_tokens(o)) implies ({
            &&& pos + 3 < t.len()
            &&& t[pos as int] == (TokenKind::Ident, object_word())
            &&& t[pos + 1].0 == TokenKind::Str
            &&& t[pos + 2].0 == TokenKind::LBrace
            &&& t[pos + 3] == (TokenKind::Ident, code_word())
            &&& wf_block(o.code)
            &&& starts_at(t, p4, block_tokens(o.code))
            &&& object_rest_at(t, pos as int, o, p4 + block_tokens(o.code).len(), 0)
        }) by {
            let head = seq![
                (TokenKind::Ident, object_word()),
                (TokenKind::Str, o.name@),
                (TokenKind::LBrace, seq!['{']),
                (TokenKind::Ident, code_word()),
            ];
            let bt = block_tokens(o.code);
            let close = seq![(TokenKind::RBrace, seq!['}'])];
            lemma_segments_front(o.inner_segments@);
            let rest = segments_rest(o.inner_segments@, 0) + close;
            assert(object_tokens(o) =~= head + (bt + rest));
            lemma_starts_split(t, pos as int, head, bt + rest);
            lemma_starts_split(t, p4, bt, rest);
            let w = t.subrange(pos as int, pos + 4);
            assert(w[0] == t[pos as int] && w[1] == t[pos + 1] && w[2] == t[pos + 2] && w[3] == t[pos + 3]);
        }
    }
    if !word_at(toks, pos, "object") {
        return Err(pos);
    }
    if kind_at(toks, pos + 1) != Some(TokenKind::Str) {
        return Err(pos + 1);
    }
    if kind_at(toks, pos + 2) != Some(TokenKind::LBrace) {
        return Err(pos + 2);
    }
    if !word_at(toks, pos + 3, "code") {
        return Err(pos + 3);
    }
    let name = toks[pos + 1].text.clone();
    let (code, q0) = match parse_block(toks, pos + 4) {
        Ok(x) => x,
        Err(z) => {
            return Err(z);
        },
    };
    proof {
        assert(wf_token(toks@[pos + 2]@));
        assert(t.subrange(pos as int, pos + 4) =~= seq![
            (TokenKind::Ident, object_word()),
            (TokenKind::Str, name@),
            (TokenKind::LBrace, seq!['{']),
            (TokenKind::Ident, code_word()),
        ]);
        lemma_split(t, pos as int, pos + 4, q0 as int);
    }
    let mut segs: Vec<InnerSegment> = Vec::new();
    let mut q = q0;
    assert(t.subrange(q0 as int, q as int) =~= segments_tokens(segs@));
    while kind_at(toks, q) == Some(TokenKind::Ident)
        invariant
            tokens_wf(toks@),
            n == toks@.len(),
            t == token_views(toks@),
            pos < q0 <= q <= n,
            "object"@ == object_word(),
            "data"@ == data_word(),
            t.subrange(q0 as int, q as int) == segments_tokens(segs@),
            forall|o: Object| wf_object(o) && starts_at(t, pos as int, #[trigger] object_tokens(o)) ==> object_rest_at(
                t,
                pos as int,
                o,
                q as int,
                segs@.len() as int,
            ),
        decreases n - q,
    {
        proof {
            assert forall|o: Object| wf_object(o) && starts_at(t, pos as int, #[trigger] object_tokens(o)) implies ({
                let k = segs@.len() as int;
                let g = o.inner_segments@[k];
                &&& k < o.inner_segments@.len()
                &&& starts_at(t, q as int, segment_tokens(g))
                &&& object_rest_at(t, pos as int, o, q + segment_tokens(g).len(), k + 1)
                &&& (g is Object ==> wf_object(*(g->Object_0)) && t[q as int].1 == object_word())
                &&& (g is Data ==> t[q as int].1 == data_word() && t[q + 1].0 == TokenKind::Str && (t[q + 2].0
                    == TokenKind::HexStr || t[q + 2].0 == TokenKind::Str))
            }) by {
                let k = segs@.len() as int;
                let ss = o.inner_segments@;
                let close = seq![(TokenKind::RBrace, seq!['}'])];
                if k == ss.len() {
                    assert(segments_rest(ss, k) =~= Seq::<SpecToken>::empty());
                    assert(segments_rest(ss, k) + close =~= close);
                    lemma_starts_split(t, q as int, Seq::<SpecToken>::empty(), close);
                } else {
                    let g = ss[k];
                    let gt = segment_tokens(g);
                    let rest = segments_rest(ss, k + 1) + close;
                    assert(segments_rest(ss, k) + close =~= gt + rest);
                    lemma_starts_split(t, q as int, gt, rest);
                    lemma_segment_first(g);
                    let w = t.subrange(q as int, q + gt.len());
                    assert(w[0] == t[q as int] && w[1] == t[q + 1] && w[2] == t[q + 2]);
                    assert(match ss[k] {
                        InnerSegment::Object(b) => wf_object(*b),
                        InnerSegment::Data(_, _) => true,
                    });
                }
            }
        }
        if word_at(toks, q, "object") {
            proof {
                assert forall|o: Object| wf_object(o) && starts_at(t, pos as int, #[trigger] object_tokens(o)) implies ({
                    let g = o.inner_segments@[segs@.len() as int];
                    g is Object && wf_object(*(g->Object_0)) && starts_at(t, q as int, object_tokens(*(g->Object_0)))
                }) by {
                    let g = o.inner_segments@[segs@.len() as int];
                    lemma_segment_first(g);
                    assert(object_word() != data_word()) by {
                        assert(object_word().len() != data_word().len());
                    }
                }
            }
            let (o, p) = match parse_object(toks, q) {
                Ok(x) => x,
                Err(z) => {
                    return Err(z);
                },
            };
            let g = InnerSegment::Object(Box::new(o));
            proof {
                lemma_split(t, q0 as int, q as int, p as int);
                lemma_segments_push(segs@, g);
            }
            segs.push(g);
            q = p;
        } else if word_at(toks, q, "data") && kind_at(toks, q + 1) == Some(TokenKind::Str) && (kind_at(
            toks,
            q + 2,
        ) == Some(TokenKind::HexStr) || kind_at(toks, q + 2) == Some(TokenKind::Str)) {
            let dname = toks[q + 1].text.clone();
            let lit = if toks[q + 2].kind == TokenKind::HexStr {
                DataLiteral::HexLiteral(toks[q + 2].text.clone())
            } else {
                DataLiteral::StringLiteral(toks[q + 2].text.clone())
            };
            let g = InnerSegment::Data(dname, lit);
            proof {
                assert(t.subrange(q as int, q + 3) =~= seq![
                    (TokenKind::Ident, data_word()),
                    (TokenKind::Str, dname@),
                    data_literal_token(lit),
                ]);
                lemma_split(t, q0 as int, q as int, q + 3);
                lemma_segments_push(segs@, g);
                assert forall|o: Object| wf_object(o) && starts_at(t, pos as int, #[trigger] object_tokens(o)) implies
                    object_rest_at(t, pos as int, o, q + 3, segs@.len() + 1int) by {
                    let gg = o.inner_segments@[segs@.len() as int];
                    lemma_segment_first(gg);
                }
            }
            segs.push(g);
            q = q + 3;
        } else {
            proof {
                assert forall|o: Object| wf_object(o) && starts_at(t, pos as int, #[trigger] object_tokens(o)) implies false by {
                    let gg = o.inner_segments@[segs@.len() as int];
                    lemma_segment_first(gg);
                }
            }
            return Err(q);
        }
    }
    proof {
        assert forall|o: Object| wf_object(o) && starts_at(t, pos as int, #[trigger] object_tokens(o)) implies q < t.len()
            && t[q as int].0 == TokenKind::RBrace && q + 1 == pos + object_tokens(o).len() by {
            let k = segs@.len() as int;
            let ss = o.inner_segments@;
            let close = seq![(TokenKind::RBrace, seq!['}'])];
            if k < ss.len() {
                let g = ss[k];
                let gt = segment_tokens(g);
                let rest = segments_rest(ss, k + 1) + close;
                assert(segments_rest(ss, k) + close =~= gt + rest);
                lemma_starts_split(t, q as int, gt, rest);
                lemma_segment_first(g);
            } else {
                assert(segments_rest(ss, k) =~= Seq::<SpecToken>::empty());
                assert(segments_rest(ss, k) + close =~= close);
                lemma_starts_split(t, q as int, Seq::<SpecToken>::empty(), close);
            }
        }
    }
    if kind_at(toks, q) != Some(TokenKind::RBrace) {
        return Err(q);
    }
    proof {
        assert(wf_token(toks@[q as int]@));
        lemma_one(t, q as int);
        lemma_split(t, pos as int, q0 as int, q as int);
        lemma_split(t, pos as int, q as int, q + 1);
    }
    Ok((Object { name, code, inner_segments: segs }, q + 1))
}

/// Why Yul source text does not parse.
#[derive(Debug, Clone, Copy, PartialEq, Eq, Structural)]
pub enum YulParseError {
    /// No token or comment can be read at this character position.
    Lex(usize),
    /// The token that starts at this character position (or the end of the
    /// text) is not what the grammar allows there.
    Syntax(usize),
}

/// The character position of the token at index `idx`, or the end of the
/// text after the last token.
fn error_position(toks: &Vec<Token>, idx: usize, text_len: usize) -> (r: usize)
    ensures
        r == if idx < toks@.len() {
            toks@[idx as int].start
        } else {
            text_len
        },
{
    if idx < toks.len() {
        toks[idx].start
    } else {
        text_len
    }
}

/// Every token read by the lexer has a text that suits its kind.
proof fn lemma_lexed_tokens_wf(s: Seq<char>, toks: Seq<Token>)
    requires
        lexes(s, toks),
    ensures
        tokens_wf(toks),
{
    assert forall|i: int| 0 <= i < toks.len() implies wf_token(#[trigger] toks[i]@) by {
        assert(token_in(s, toks[i]));
    }
}

/// `s` is the text of the block `b`: it splits into tokens that are those
/// of `b`.
pub open spec fn is_block_text(s: Seq<char>, b: Block) -> bool {
    exists|toks: Seq<Token>| lexes(s, toks) && #[trigger] token_views(toks) == block_tokens(b)
}

/// `s` is the text of the object `o`: it splits into tokens that are those
/// of `o`.
pub open spec fn is_object_text(s: Seq<char>, o: Object) -> bool {
    exists|toks: Seq<Token>| lexes(s, toks) && #[trigger] token_views(toks) == object_tokens(o)
}

/// The only lexing of a text shows the parser every lexing's tokens.
proof fn lemma_only_views(s: Seq<char>, toks: Seq<Token>, l: Seq<Token>)
    requires
        lexes_only(s, toks),
        lexes(s, l),
    ensures
        token_views(l) == token_views(toks),
{
    assert(is_prefix_of(toks, l) && l.len() == toks.len());
    assert forall|i: int| 0 <= i < l.len() implies token_views(l)[i] == token_views(toks)[i] by {
        assert(same_token(toks[i], l[i]));
    }
    assert(token_views(l) =~= token_views(toks));
}

/// Parses a Yul block, `{ statements }`, that makes up the whole text.
pub struct BlockParser;

impl BlockParser {
    pub fn new() -> (p: Self) {
        BlockParser
    }

    /// The block that `input` is written as: its tokens are exactly those
    /// of the text. An error comes only where the text is the text of no
    /// block that the parser can produce.
    pub fn parse(&self, input: &str) -> (r: Result<Block, YulParseError>)
        ensures
            r matches Ok(b) ==> is_block_text(input@, b),
            r is Err ==> forall|b: Block| wf_block(b) ==> !#[trigger] is_block_text(input@, b),
    {
        let toks = match tokenize(input) {
            Ok(t) => t,
            Err(e) => {
                return Err(YulParseError::Lex(e.pos));
            },
        };
        proof {
            lemma_lexed_tokens_wf(input@, toks@);
        }
        let ghost t = token_views(toks@);
        proof {
            assert forall|b: Block| wf_block(b) && #[trigger] is_block_text(input@, b) implies starts_at(
                t,
                0,
                block_tokens(b),
            ) && block_tokens(b).len() == t.len() by {
                let l = choose|l: Seq<Token>| lexes(input@, l) && #[trigger] token_views(l) == block_tokens(b);
                lemma_only_views(input@, toks@, l);
                assert(t.subrange(0, t.len() as int) =~= t);
            }
        }
        let text_len = input.unicode_len();
        match parse_block(&toks, 0) {
            Ok((b, p)) => {
                if p != toks.len() {
                    return Err(YulParseError::Syntax(error_position(&toks, p, text_len)));
                }
                assert(token_views(toks@).subrange(0, p as int) =~= token_views(toks@));
                assert(token_views(toks@) == block_tokens(b));
                Ok(b)
            },
            Err(z) => Err(YulParseError::Syntax(error_position(&toks, z, text_len))),
        }
    }
}

/// Parses a Yul object, `object "name" { code { ... } segments }`, that
/// makes up the whole text.
pub struct ObjectParser;

impl ObjectParser {
    pub fn new() -> (p: Self) {
        ObjectParser
    }

    /// The object that `input` is written as: its tokens are exactly those
    /// of the text. An error comes only where the text is the text of no
    /// object that the parser can produce.
    pub fn parse(&self, input: &str) -> (r: Result<Object, YulParseError>)
        ensures
            r matches Ok(o) ==> is_object_text(input@, o),
            r is Err ==> forall|o: Object| wf_object(o) ==> !#[trigger] is_object_text(input@, o),
    {
        let toks = match tokenize(input) {
            Ok(t) => t,
            Err(e) => {
                return Err(YulParseError::Lex(e.pos));
            },
        };
        proof {
            lemma_lexed_tokens_wf(input@, toks@);
        }
        let ghost t = token_views(toks@);
        proof {
            assert forall|o: Object| wf_object(o) && #[trigger] is_object_text(input@, o) implies starts_at(
                t,
                0,
                object_tokens(o),
            ) && object_tokens(o).len() == t.len() by {
                let l = choose|l: Seq<Token>| lexes(input@, l) && #[trigger] token_views(l) == object_tokens(o);
                lemma_only_views(input@, toks@, l);
                assert(t.subrange(0, t.len() as int) =~= t);
            }
        }
        let text_len = input.unicode_len();
        match parse_object(&toks, 0) {
            Ok((o, p)) => {
                if p != toks.len() {
                    return Err(YulParseError::Syntax(error_position(&toks, p, text_len)));
                }
                assert(token_views(toks@).subrange(0, p as int) =~= token_views(toks@));
                assert(token_views(toks@) == object_tokens(o));
                Ok(o)
            },
            Err(z) => Err(YulParseError::Syntax(error_position(&toks, z, text_len))),
        }
    }
}

} // verus!
