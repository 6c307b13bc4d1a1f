//! What the parser must accept: the token sequences that syntax trees are
//! written as, read from the front, and the facts about their first tokens
//! that the parser's choices rest on.

use vstd::prelude::*;
use super::ast::{
    args_tokens, block_tokens, call_tokens, cases_tokens, expr_tokens, ident_list_tokens, ident_tok, kw,
    literal_tokens, stmt_tokens, stmts_tokens, type_suffix_tokens, typed_ident_tokens, typed_list_tokens,
    Block, Case, Expression, Identifier, Literal, SpecToken, Statement, SwitchOptions, TokenKind, TypedIdentifier,
    object_tokens, segments_tokens, InnerSegment, Object, data_word, data_literal_token, DataLiteral,
};

verus! {

/// The tokens `s` stand in `t` from `pos` on.
pub open spec fn starts_at(t: Seq<SpecToken>, pos: int, s: Seq<SpecToken>) -> bool {
    0 <= pos && pos + s.len() <= t.len() && t.subrange(pos, pos + s.len()) == s
}

/// The token at `q`, if any, can follow an expression or a typed
/// identifier without being read as part of it: it is neither `(` nor `:`.
pub open spec fn ends_expr(t: Seq<SpecToken>, q: int) -> bool {
    q >= t.len() || (t[q].0 != TokenKind::LParen && t[q].0 != TokenKind::Colon)
}

/// The token at `q`, if any, is not `:`.
pub open spec fn no_colon(t: Seq<SpecToken>, q: int) -> bool {
    q >= t.len() || t[q].0 != TokenKind::Colon
}

/// The kinds of token that a literal starts with.
pub open spec fn is_literal_start(k: TokenKind) -> bool {
    k == TokenKind::KwTrue || k == TokenKind::KwFalse || k == TokenKind::HexNumber || k
        == TokenKind::DecNumber || k == TokenKind::Str
}

/// The kinds of token that a statement starts with.
pub open spec fn is_stmt_start(k: TokenKind) -> bool {
    k == TokenKind::LBrace || k == TokenKind::KwFunction || k == TokenKind::KwLet || k == TokenKind::KwIf
        || k == TokenKind::KwSwitch || k == TokenKind::KwFor || k == TokenKind::KwBreak || k
        == TokenKind::KwContinue || k == TokenKind::KwLeave || k == TokenKind::Ident
}

/// A statement that the parser can produce stands at `pos` and is followed
/// by what can follow a statement.
pub open spec fn stmt_at(t: Seq<SpecToken>, pos: int, st: Statement) -> bool {
    wf_stmt(st) && starts_at(t, pos, stmt_tokens(st)) && ends_stmt(t, pos + stmt_tokens(st).len())
}

/// The token at `q` can follow a statement inside a block: a statement
/// starts there or the block closes.
pub open spec fn ends_stmt(t: Seq<SpecToken>, q: int) -> bool {
    0 <= q < t.len() && (t[q].0 == TokenKind::RBrace || is_stmt_start(t[q].0))
}

/// A statement that the parser can produce: declarations and assignments
/// name at least one variable, a switch has a case or a default, there is
/// no two-way branch, and the same holds of every statement inside.
pub open spec fn wf_stmt(st: Statement) -> bool
    decreases st,
{
    match st {
        Statement::Block(b) => wf_block(b),
        Statement::FunctionDefinition(f) => wf_block(f.body),
        Statement::VariableDeclaration(v) => v.identifiers@.len() > 0,
        Statement::Assignment(a) => a.identifiers@.len() > 0,
        Statement::If(i) => wf_block(i.body),
        Statement::FunctionCall(_) => true,
        Statement::Switch(sw) => match sw.opt {
            SwitchOptions::Cases(cs, d) => (cs@.len() > 0 || d is Some) && wf_cases(cs@) && match d {
                Option::None => true,
                Option::Some(dd) => wf_block(dd.body),
            },
            SwitchOptions::Default(dd) => wf_block(dd.body),
        },
        Statement::For(f) => wf_block(f.init_block) && wf_block(f.post_block) && wf_block(f.execution_block),
        Statement::Break => true,
        Statement::Continue => true,
        Statement::Leave => true,
        Statement::IfElse(_) => false,
    }
}

/// Every statement of the block can be produced by the parser.
pub open spec fn wf_block(b: Block) -> bool
    decreases b,
{
    wf_stmts(b.statements@)
}

pub open spec fn wf_stmts(s: Seq<Statement>) -> bool
    decreases s,
{
    forall|i: int| 0 <= i < s.len() ==> wf_stmt(#[trigger] s[i])
}

pub open spec fn wf_cases(s: Seq<Case>) -> bool
    decreases s,
{
    forall|i: int| 0 <= i < s.len() ==> wf_block(#[trigger] s[i].body)
}

/// Every block of the object and of the objects inside can be produced by
/// the parser.
pub open spec fn wf_object(o: Object) -> bool
    decreases o,
{
    wf_block(o.code) && forall|i: int| 0 <= i < o.inner_segments@.len() ==> match #[trigger] o.inner_segments@[i] {
        InnerSegment::Object(b) => wf_object(*b),
        InnerSegment::Data(_, _) => true,
    }
}

/// The tokens of the arguments from the `k`-th on, each after a comma.
pub open spec fn args_rest(args: Seq<Expression>, k: int) -> Seq<SpecToken>
    decreases args.len() - k,
{
    if k >= args.len() || k < 0 {
        Seq::empty()
    } else {
        seq![(TokenKind::Comma, seq![','])] + expr_tokens(args[k]) + args_rest(args, k + 1)
    }
}

/// The tokens of the typed identifiers from the `k`-th on, each after a comma.
pub open spec fn typed_rest(s: Seq<TypedIdentifier>, k: int) -> Seq<SpecToken>
    decreases s.len() - k,
{
    if k >= s.len() || k < 0 {
        Seq::empty()
    } else {
        seq![(TokenKind::Comma, seq![','])] + typed_ident_tokens(s[k]) + typed_rest(s, k + 1)
    }
}

/// The tokens of the identifiers from the `k`-th on, each after a comma.
pub open spec fn idents_rest(s: Seq<Identifier>, k: int) -> Seq<SpecToken>
    decreases s.len() - k,
{
    if k >= s.len() || k < 0 {
        Seq::empty()
    } else {
        seq![(TokenKind::Comma, seq![',']), ident_tok(s[k])] + idents_rest(s, k + 1)
    }
}

/// The tokens of the statements from the `k`-th on.
pub open spec fn stmts_rest(s: Seq<Statement>, k: int) -> Seq<SpecToken>
    decreases s.len() - k,
{
    if k >= s.len() || k < 0 {
        Seq::empty()
    } else {
        stmt_tokens(s[k]) + stmts_rest(s, k + 1)
    }
}

/// The tokens of the cases from the `k`-th on.
pub open spec fn cases_rest(s: Seq<Case>, k: int) -> Seq<SpecToken>
    decreases s.len() - k,
{
    if k >= s.len() || k < 0 {
        Seq::empty()
    } else {
        seq![kw(TokenKind::KwCase)] + literal_tokens(s[k].case) + block_tokens(s[k].body) + cases_rest(s, k + 1)
    }
}

/// The tokens of one segment of an object.
pub open spec fn segment_tokens(g: InnerSegment) -> Seq<SpecToken> {
    match g {
        InnerSegment::Object(b) => object_tokens(*b),
        InnerSegment::Data(name, d) => seq![
            (TokenKind::Ident, data_word()),
            (TokenKind::Str, name@),
            data_literal_token(d),
        ],
    }
}

/// The tokens of the segments from the `k`-th on.
pub open spec fn segments_rest(s: Seq<InnerSegment>, k: int) -> Seq<SpecToken>
    decreases s.len() - k,
{
    if k >= s.len() || k < 0 {
        Seq::empty()
    } else {
        segment_tokens(s[k]) + segments_rest(s, k + 1)
    }
}

proof fn lemma_args_rest_push(s: Seq<Expression>, x: Expression, k: int)
    requires
        1 <= k <= s.len(),
    ensures
        args_rest(s.push(x), k) == args_rest(s, k) + seq![(TokenKind::Comma, seq![','])] + expr_tokens(x),
    decreases s.len() - k,
{
    let u = s.push(x);
    if k < s.len() {
        lemma_args_rest_push(s, x, k + 1);
        assert(u[k] == s[k]);
        assert(args_rest(u, k) =~= args_rest(s, k) + seq![(TokenKind::Comma, seq![','])] + expr_tokens(x));
    } else {
        assert(u[k] == x);
        assert(args_rest(u, k + 1) =~= Seq::<SpecToken>::empty());
        assert(args_rest(u, k) =~= args_rest(s, k) + seq![(TokenKind::Comma, seq![','])] + expr_tokens(x));
    }
}

/// A non-empty argument list is its first argument, then the rest each
/// after a comma.
pub proof fn lemma_args_front(s: Seq<Expression>)
    requires
        s.len() >= 1,
    ensures
        args_tokens(s) == expr_tokens(s[0]) + args_rest(s, 1),
    decreases s.len(),
{
    if s.len() == 1 {
        assert(args_rest(s, 1) =~= Seq::<SpecToken>::empty());
        assert(args_tokens(s) =~= expr_tokens(s[0]) + args_rest(s, 1));
    } else {
        let d = s.drop_last();
        lemma_args_front(d);
        lemma_args_rest_push(d, s.last(), 1);
        assert(d.push(s.last()) =~= s);
        assert(d[0] == s[0]);
        assert(args_tokens(s) =~= expr_tokens(s[0]) + args_rest(s, 1));
    }
}

proof fn lemma_typed_rest_push(s: Seq<TypedIdentifier>, x: TypedIdentifier, k: int)
    requires
        1 <= k <= s.len(),
    ensures
        typed_rest(s.push(x), k) == typed_rest(s, k) + seq![(TokenKind::Comma, seq![','])] + typed_ident_tokens(x),
    decreases s.len() - k,
{
    let u = s.push(x);
    if k < s.len() {
        lemma_typed_rest_push(s, x, k + 1);
        assert(u[k] == s[k]);
        assert(typed_rest(u, k) =~= typed_rest(s, k) + seq![(TokenKind::Comma, seq![','])] + typed_ident_tokens(x));
    } else {
        assert(u[k] == x);
        assert(typed_rest(u, k + 1) =~= Seq::<SpecToken>::empty());
        assert(typed_rest(u, k) =~= typed_rest(s, k) + seq![(TokenKind::Comma, seq![','])] + typed_ident_tokens(x));
    }
}

/// A non-empty list of typed identifiers, read from the front.
pub proof fn lemma_typed_front(s: Seq<TypedIdentifier>)
    requires
        s.len() >= 1,
    ensures
        typed_list_tokens(s) == typed_ident_tokens(s[0]) + typed_rest(s, 1),
    decreases s.len(),
{
    if s.len() == 1 {
        assert(typed_rest(s, 1) =~= Seq::<SpecToken>::empty());
        assert(typed_list_tokens(s) =~= typed_ident_tokens(s[0]) + typed_rest(s, 1));
    } else {
        let d = s.drop_last();
        lemma_typed_front(d);
        lemma_typed_rest_push(d, s.last(), 1);
        assert(d.push(s.last()) =~= s);
        assert(d[0] == s[0]);
        assert(typed_list_tokens(s) =~= typed_ident_tokens(s[0]) + typed_rest(s, 1));
    }
}

proof fn lemma_idents_rest_push(s: Seq<Identifier>, x: Identifier, k: int)
    requires
        1 <= k <= s.len(),
    ensures
        idents_rest(s.push(x), k) == idents_rest(s, k) + seq![(TokenKind::Comma, seq![',']), ident_tok(x)],
    decreases s.len() - k,
{
    let u = s.push(x);
    if k < s.len() {
        lemma_idents_rest_push(s, x, k + 1);
        assert(u[k] == s[k]);
        assert(idents_rest(u, k) =~= idents_rest(s, k) + seq![(TokenKind::Comma, seq![',']), ident_tok(x)]);
    } else {
        assert(u[k] == x);
        assert(idents_rest(u, k + 1) =~= Seq::<SpecToken>::empty());
        assert(idents_rest(u, k) =~= idents_rest(s, k) + seq![(TokenKind::Comma, seq![',']), ident_tok(x)]);
    }
}

/// A non-empty list of identifiers, read from the front.
pub proof fn lemma_idents_front(s: Seq<Identifier>)
    requires
        s.len() >= 1,
    ensures
        ident_list_tokens(s) == seq![ident_tok(s[0])] + idents_rest(s, 1),
    decreases s.len(),
{
    if s.len() == 1 {
        assert(idents_rest(s, 1) =~= Seq::<SpecToken>::empty());
        assert(ident_list_tokens(s) =~= seq![ident_tok(s[0])] + idents_rest(s, 1));
    } else {
        let d = s.drop_last();
        lemma_idents_front(d);
        lemma_idents_rest_push(d, s.last(), 1);
        assert(d.push(s.last()) =~= s);
        assert(d[0] == s[0]);
        assert(ident_list_tokens(s) =~= seq![ident_tok(s[0])] + idents_rest(s, 1));
    }
}

proof fn lemma_stmts_rest_push(s: Seq<Statement>, x: Statement, k: int)
    requires
        0 <= k <= s.len(),
    ensures
        stmts_rest(s.push(x), k) == stmts_rest(s, k) + stmt_tokens(x),
    decreases s.len() - k,
{
    let u = s.push(x);
    if k < s.len() {
        lemma_stmts_rest_push(s, x, k + 1);
        assert(u[k] == s[k]);
        assert(stmts_rest(u, k) =~= stmts_rest(s, k) + stmt_tokens(x));
    } else {
        assert(u[k] == x);
        assert(stmts_rest(u, k + 1) =~= Seq::<SpecToken>::empty());
        assert(stmts_rest(u, k) =~= stmts_rest(s, k) + stmt_tokens(x));
    }
}

/// Statements read from the front.
pub proof fn lemma_stmts_front(s: Seq<Statement>)
    ensures
        stmts_tokens(s) == stmts_rest(s, 0),
    decreases s.len(),
{
    if s.len() == 0 {
        assert(stmts_rest(s, 0) =~= Seq::<SpecToken>::empty());
    } else {
        let d = s.drop_last();
        lemma_stmts_front(d);
        lemma_stmts_rest_push(d, s.last(), 0);
        assert(d.push(s.last()) =~= s);
    }
}

proof fn lemma_cases_rest_push(s: Seq<Case>, x: Case, k: int)
    requires
        0 <= k <= s.len(),
    ensures
        cases_rest(s.push(x), k) == cases_rest(s, k) + (seq![kw(TokenKind::KwCase)] + literal_tokens(x.case)
            + block_tokens(x.body)),
    decreases s.len() - k,
{
    let u = s.push(x);
    let tail = seq![kw(TokenKind::KwCase)] + literal_tokens(x.case) + block_tokens(x.body);
    if k < s.len() {
        lemma_cases_rest_push(s, x, k + 1);
        assert(u[k] == s[k]);
        assert(cases_rest(u, k) =~= cases_rest(s, k) + tail);
    } else {
        assert(u[k] == x);
        assert(cases_rest(u, k + 1) =~= Seq::<SpecToken>::empty());
        assert(cases_rest(u, k) =~= cases_rest(s, k) + tail);
    }
}

/// Cases read from the front.
pub proof fn lemma_cases_front(s: Seq<Case>)
    ensures
        cases_tokens(s) == cases_rest(s, 0),
    decreases s.len(),
{
    if s.len() == 0 {
        assert(cases_rest(s, 0) =~= Seq::<SpecToken>::empty());
    } else {
        let d = s.drop_last();
        lemma_cases_front(d);
        lemma_cases_rest_push(d, s.last(), 0);
        assert(d.push(s.last()) =~= s);
        assert(cases_tokens(s) =~= cases_tokens(d) + (seq![kw(TokenKind::KwCase)] + literal_tokens(s.last().case)
            + block_tokens(s.last().body)));
    }
}

proof fn lemma_segments_rest_push(s: Seq<InnerSegment>, x: InnerSegment, k: int)
    requires
        0 <= k <= s.len(),
    ensures
        segments_rest(s.push(x), k) == segments_rest(s, k) + segment_tokens(x),
    decreases s.len() - k,
{
    let u = s.push(x);
    if k < s.len() {
        lemma_segments_rest_push(s, x, k + 1);
        assert(u[k] == s[k]);
        assert(segments_rest(u, k) =~= segments_rest(s, k) + segment_tokens(x));
    } else {
        assert(u[k] == x);
        assert(segments_rest(u, k + 1) =~= Seq::<SpecToken>::empty());
        assert(segments_rest(u, k) =~= segments_rest(s, k) + segment_tokens(x));
    }
}

/// Segments read from the front.
pub proof fn lemma_segments_front(s: Seq<InnerSegment>)
    ensures
        segments_tokens(s) == segments_rest(s, 0),
    decreases s.len(),
{
    if s.len() == 0 {
        assert(segments_rest(s, 0) =~= Seq::<SpecToken>::empty());
    } else {
        let d = s.drop_last();
        lemma_segments_front(d);
        lemma_segments_rest_push(d, s.last(), 0);
        assert(d.push(s.last()) =~= s);
    }
}

/// A literal is a literal token and its optional type.
pub proof fn lemma_literal_first(l: Literal)
    ensures
        literal_tokens(l).len() >= 1,
        is_literal_start(literal_tokens(l)[0].0),
        literal_tokens(l) == seq![literal_tokens(l)[0]] + type_suffix_tokens(literal_type(l)),
{
    let t = literal_tokens(l);
    assert(t =~= seq![t[0]] + type_suffix_tokens(literal_type(l)));
}

/// The type of a literal.
pub open spec fn literal_type(l: Literal) -> Option<super::ast::TypeName> {
    match l {
        Literal::TrueLiteral(t) => t,
        Literal::FalseLiteral(t) => t,
        Literal::HexNumberLiteral(_, t) => t,
        Literal::DecimalNumberLiteral(_, t) => t,
        Literal::StringLiteral(_, t) => t,
    }
}

/// An expression starts with an identifier or a literal token, and an
/// identifier starts an expression that is an identifier or a call.
pub proof fn lemma_expr_first(e: Expression)
    ensures
        expr_tokens(e).len() >= 1,
        expr_tokens(e)[0].0 == TokenKind::Ident || is_literal_start(expr_tokens(e)[0].0),
        e is Literal ==> is_literal_start(expr_tokens(e)[0].0),
        e is Identifier ==> expr_tokens(e).len() == 1 && expr_tokens(e)[0].0 == TokenKind::Ident,
        e is FunctionCall ==> expr_tokens(e) == call_tokens(*(e->FunctionCall_0)) && expr_tokens(e).len() >= 3
            && expr_tokens(e)[0].0 == TokenKind::Ident && expr_tokens(e)[1].0 == TokenKind::LParen,
{
    match e {
        Expression::Literal(l) => {
            lemma_literal_first(l);
        },
        _ => {},
    }
}

/// A typed identifier starts with its name.
pub proof fn lemma_typed_first(x: TypedIdentifier)
    ensures
        typed_ident_tokens(x).len() >= 1,
        typed_ident_tokens(x)[0] == ident_tok(x.identifier),
{
}

/// A block starts with `{`.
pub proof fn lemma_block_first(b: Block)
    ensures
        block_tokens(b).len() >= 2,
        block_tokens(b)[0].0 == TokenKind::LBrace,
{
}

/// A statement that the parser can produce starts with a statement token.
pub proof fn lemma_stmt_first(st: Statement)
    requires
        wf_stmt(st),
    ensures
        stmt_tokens(st).len() >= 1,
        is_stmt_start(stmt_tokens(st)[0].0),
        (stmt_tokens(st)[0].0 == TokenKind::LBrace) == (st is Block),
        (stmt_tokens(st)[0].0 == TokenKind::KwFunction) == (st is FunctionDefinition),
        (stmt_tokens(st)[0].0 == TokenKind::KwLet) == (st is VariableDeclaration),
        (stmt_tokens(st)[0].0 == TokenKind::KwIf) == (st is If),
        (stmt_tokens(st)[0].0 == TokenKind::KwSwitch) == (st is Switch),
        (stmt_tokens(st)[0].0 == TokenKind::KwFor) == (st is For),
        (stmt_tokens(st)[0].0 == TokenKind::KwBreak) == (st is Break),
        (stmt_tokens(st)[0].0 == TokenKind::KwContinue) == (st is Continue),
        (stmt_tokens(st)[0].0 == TokenKind::KwLeave) == (st is Leave),
        (stmt_tokens(st)[0].0 == TokenKind::Ident) == (st is Assignment || st is FunctionCall),
{
    match st {
        Statement::Assignment(a) => {
            lemma_idents_front(a.identifiers@);
        },
        Statement::FunctionCall(fc) => {},
        _ => {},
    }
}

/// Tokens that stand at `pos` one after another.
pub proof fn lemma_starts_split(t: Seq<SpecToken>, pos: int, a: Seq<SpecToken>, b: Seq<SpecToken>)
    requires
        starts_at(t, pos, a + b),
    ensures
        starts_at(t, pos, a),
        starts_at(t, pos + a.len(), b),
        a.len() > 0 ==> t[pos] == a[0],
        b.len() > 0 ==> t[pos + a.len()] == b[0],
{
    let w = t.subrange(pos, pos + a.len() + b.len());
    assert(w == a + b);
    assert(t.subrange(pos, pos + a.len()) =~= w.subrange(0, a.len() as int));
    assert(w.subrange(0, a.len() as int) =~= a);
    assert(t.subrange(pos + a.len(), pos + a.len() + b.len()) =~= w.subrange(a.len() as int, (a.len() + b.len()) as int));
    assert(w.subrange(a.len() as int, (a.len() + b.len()) as int) =~= b);
    if a.len() > 0 {
        assert(w[0] == t[pos]);
    }
    if b.len() > 0 {
        assert(w[a.len() as int] == t[pos + a.len()]);
    }
}

} // verus!
