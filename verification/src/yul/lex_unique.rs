//! The lexing of a text is unique: whitespace and comments split into the
//! same pieces whichever way they are read, and at most one token starts at
//! a position.

use vstd::prelude::*;
use super::ast::{TokenKind, keyword_text};
use super::lexer::{
    is_digit, is_hex_digit, is_ident_char, is_ident_start, is_word_kind, is_ws, keyword_of, lexeme,
    fixed_text, str_content_ok, token_at, trivia_between, trivia_piece, wf_token,
};

verus! {

/// At most one piece of trivia starts at a position.
pub proof fn lemma_piece_unique(s: Seq<char>, a: int, j1: int, j2: int)
    requires
        trivia_piece(s, a, j1),
        trivia_piece(s, a, j2),
    ensures
        j1 == j2,
{
    if j1 < j2 {
        lemma_piece_shortest(s, a, j1, j2);
    } else if j2 < j1 {
        lemma_piece_shortest(s, a, j2, j1);
    }
}

proof fn lemma_piece_shortest(s: Seq<char>, a: int, j1: int, j2: int)
    requires
        trivia_piece(s, a, j1),
        trivia_piece(s, a, j2),
    ensures
        j2 <= j1,
{
    if j1 < j2 {
        if is_ws(s[a]) {
            assert(s[a] != '/');
        } else if s[a + 1] == '/' {
            assert(s[j1] == '\n');
            assert(a + 2 <= j1 < j2);
        } else {
            let k = j1 - 2;
            assert(s[k] == '*' && s[k + 1] == '/');
            assert(a + 2 <= k < j2 - 2);
        }
    }
}

/// Two readings of trivia from one position agree on their pieces: where
/// one ends before the other, the rest of the longer is trivia too.
pub proof fn lemma_trivia_boundary(s: Seq<char>, a: int, j: int, x: int)
    requires
        trivia_between(s, a, j),
        trivia_between(s, a, x),
        j <= x,
    ensures
        trivia_between(s, j, x),
    decreases j - a,
{
    if a < j {
        let j1 = choose|j1: int| a < j1 <= j && #[trigger] trivia_piece(s, a, j1) && trivia_between(s, j1, j);
        let x1 = choose|x1: int| a < x1 <= x && #[trigger] trivia_piece(s, a, x1) && trivia_between(s, x1, x);
        lemma_piece_unique(s, a, j1, x1);
        lemma_trivia_boundary(s, j1, j, x);
    }
}

/// Where trivia runs from `a` to a later `x`, a piece of trivia starts at `a`.
pub proof fn lemma_trivia_starts(s: Seq<char>, a: int, x: int)
    requires
        trivia_between(s, a, x),
        a < x,
    ensures
        is_ws(s[a]) || (s[a] == '/' && a + 1 < s.len() && (s[a + 1] == '/' || s[a + 1] == '*')),
{
    let j = choose|j: int| a < j <= x && #[trigger] trivia_piece(s, a, j) && trivia_between(s, j, x);
    assert(trivia_piece(s, a, j));
}

/// What the first character of a token tells of it.
pub proof fn lemma_token_first(s: Seq<char>, k: TokenKind, t: Seq<char>, i: int, e: int)
    requires
        token_at(s, k, t, i, e),
    ensures
        !is_ws(s[i]),
        s[i] != '/',
        s[i] == '{' <==> k == TokenKind::LBrace,
        s[i] == '}' <==> k == TokenKind::RBrace,
        s[i] == '(' <==> k == TokenKind::LParen,
        s[i] == ')' <==> k == TokenKind::RParen,
        s[i] == ',' <==> k == TokenKind::Comma,
        s[i] == ':' <==> (k == TokenKind::Colon || k == TokenKind::Assign),
        s[i] == '-' <==> k == TokenKind::Arrow,
        s[i] == '"' <==> k == TokenKind::Str,
        k == TokenKind::Arrow ==> e == i + 2 && s[i + 1] == '>',
        k == TokenKind::Assign ==> e == i + 2 && s[i + 1] == '=',
        k == TokenKind::Colon ==> e == i + 1 && (e == s.len() || s[e] != '='),
        k == TokenKind::LBrace || k == TokenKind::RBrace || k == TokenKind::LParen || k
            == TokenKind::RParen || k == TokenKind::Comma ==> e == i + 1 && t == seq![s[i]],
        k == TokenKind::HexStr ==> i + 4 <= e && s[i] == 'h' && s[i + 1] == 'e' && s[i + 2] == 'x' && s[i + 3]
            == '"',
        k == TokenKind::HexNumber ==> i + 3 <= e && s[i] == '0' && s[i + 1] == 'x',
        k == TokenKind::DecNumber ==> is_digit(s[i]),
        is_word_kind(k) && k != TokenKind::HexNumber && k != TokenKind::DecNumber ==> is_ident_start(s[i]),
        is_ident_start(s[i]) ==> is_word_kind(k) && k != TokenKind::HexNumber && k != TokenKind::DecNumber
            || k == TokenKind::HexStr,
        is_digit(s[i]) ==> k == TokenKind::HexNumber || k == TokenKind::DecNumber,
{
    let lx = lexeme((k, t));
    assert(s.subrange(i, e) == lx);
    assert(lx.len() == e - i);
    assert(s[i] == lx[0]) by {
        assert(s.subrange(i, e)[0] == s[i]);
    }
    if k == TokenKind::Arrow || k == TokenKind::Assign {
        assert(s.subrange(i, e)[1] == s[i + 1]);
    }
    if k == TokenKind::HexStr {
        assert(s.subrange(i, e)[1] == s[i + 1]);
        assert(s.subrange(i, e)[2] == s[i + 2]);
        assert(s.subrange(i, e)[3] == s[i + 3]);
    }
    if k == TokenKind::HexNumber {
        assert(s.subrange(i, e)[1] == s[i + 1]);
    }
}

/// The keywords.
pub open spec fn is_keyword_kind(k: TokenKind) -> bool {
    k == TokenKind::KwFunction || k == TokenKind::KwLet || k == TokenKind::KwIf || k == TokenKind::KwSwitch
        || k == TokenKind::KwCase || k == TokenKind::KwDefault || k == TokenKind::KwFor || k
        == TokenKind::KwBreak || k == TokenKind::KwContinue || k == TokenKind::KwLeave || k
        == TokenKind::KwTrue || k == TokenKind::KwFalse
}

/// Each keyword's text is read as that keyword, and is made of letters.
pub proof fn lemma_keyword_text(k: TokenKind)
    requires
        is_keyword_kind(k),
    ensures
        keyword_of(keyword_text(k)) == Some(k),
        fixed_text(k) == keyword_text(k),
        keyword_text(k).len() >= 2,
        forall|m: int| 0 <= m < keyword_text(k).len() ==> 'a' <= #[trigger] keyword_text(k)[m] <= 'z',
{
    let f = keyword_text(TokenKind::KwFunction);
    let l = keyword_text(TokenKind::KwLet);
    let i = keyword_text(TokenKind::KwIf);
    let sw = keyword_text(TokenKind::KwSwitch);
    let c = keyword_text(TokenKind::KwCase);
    let d = keyword_text(TokenKind::KwDefault);
    let fo = keyword_text(TokenKind::KwFor);
    let b = keyword_text(TokenKind::KwBreak);
    let co = keyword_text(TokenKind::KwContinue);
    let le = keyword_text(TokenKind::KwLeave);
    let t = keyword_text(TokenKind::KwTrue);
    let fa = keyword_text(TokenKind::KwFalse);
    assert(f[0] == 'f' && f[1] == 'u' && f.len() == 8);
    assert(l[0] == 'l' && l[1] == 'e' && l.len() == 3);
    assert(i[0] == 'i' && i.len() == 2);
    assert(sw[0] == 's' && sw.len() == 6);
    assert(c[0] == 'c' && c[1] == 'a' && c.len() == 4);
    assert(d[0] == 'd' && d.len() == 7);
    assert(fo[0] == 'f' && fo[1] == 'o' && fo.len() == 3);
    assert(b[0] == 'b' && b.len() == 5);
    assert(co[0] == 'c' && co[1] == 'o' && co.len() == 8);
    assert(le[0] == 'l' && le[1] == 'e' && le.len() == 5);
    assert(t[0] == 't' && t.len() == 4);
    assert(fa[0] == 'f' && fa[1] == 'a' && fa.len() == 5);
}

/// Two runs from `i` of characters that satisfy `p`, each ended by the text's
/// end or a character that does not satisfy `q`, end together when `p`
/// implies `q`.
pub(crate) proof fn lemma_run_end(s: Seq<char>, i: int, e1: int, e2: int, p: spec_fn(char) -> bool, q: spec_fn(char) -> bool)
    requires
        i <= e1 <= s.len(),
        i <= e2 <= s.len(),
        forall|m: int| i <= m < e1 ==> p(#[trigger] s[m]),
        forall|m: int| i <= m < e2 ==> p(#[trigger] s[m]),
        e1 == s.len() || !q(s[e1]),
        e2 == s.len() || !q(s[e2]),
        forall|c: char| #[trigger] p(c) ==> q(c),
    ensures
        e1 == e2,
{
    if e1 < e2 {
        assert(p(s[e1]));
    } else if e2 < e1 {
        assert(p(s[e2]));
    }
}

/// The characters of a word token are characters of identifiers.
pub(crate) proof fn lemma_word_chars(s: Seq<char>, k: TokenKind, t: Seq<char>, i: int, e: int)
    requires
        token_at(s, k, t, i, e),
        k == TokenKind::Ident || is_keyword_kind(k),
    ensures
        forall|m: int| i <= m < e ==> is_ident_char(#[trigger] s[m]),
        t == s.subrange(i, e),
{
    if is_keyword_kind(k) {
        lemma_keyword_text(k);
    }
    assert forall|m: int| i <= m < e implies is_ident_char(#[trigger] s[m]) by {
        assert(s.subrange(i, e)[m - i] == s[m]);
        if k == TokenKind::Ident {
            if m > i {
                assert(is_ident_char(t[m - i]));
            }
        } else {
            assert('a' <= keyword_text(k)[m - i] <= 'z');
        }
    }
}

/// Two string contents that the same text continues with, each followed
/// by a quote, are the same.
proof fn lemma_str_unique(u: Seq<char>, a: Seq<char>, b: Seq<char>)
    requires
        str_content_ok(a),
        str_content_ok(b),
        a.len() < u.len(),
        b.len() < u.len(),
        u.take(a.len() as int) == a,
        u[a.len() as int] == '"',
        u.take(b.len() as int) == b,
        u[b.len() as int] == '"',
    ensures
        a == b,
    decreases a.len(),
{
    if a.len() == 0 {
        if b.len() > 0 {
            assert(b[0] == u[0]);
        }
        assert(b =~= a);
    } else if b.len() == 0 {
        assert(a[0] == u[0]);
    } else {
        assert(a[0] == u[0] && b[0] == u[0]);
        if a[0] == '\\' {
            assert(a[1] == u[1] && b[1] == u[1]);
            assert(u.skip(2).take(a.len() - 2) =~= a.skip(2));
            assert(u.skip(2).take(b.len() - 2) =~= b.skip(2));
            lemma_str_unique(u.skip(2), a.skip(2), b.skip(2));
            assert(a =~= seq![a[0], a[1]] + a.skip(2));
            assert(b =~= seq![b[0], b[1]] + b.skip(2));
        } else {
            assert(u.skip(1).take(a.len() - 1) =~= a.skip(1));
            assert(u.skip(1).take(b.len() - 1) =~= b.skip(1));
            lemma_str_unique(u.skip(1), a.skip(1), b.skip(1));
            assert(a =~= seq![a[0]] + a.skip(1));
            assert(b =~= seq![b[0]] + b.skip(1));
        }
    }
}

/// What a string token at `i` ending at `e` holds.
pub(crate) proof fn lemma_str_token_shape(s: Seq<char>, t: Seq<char>, i: int, e: int)
    requires
        token_at(s, TokenKind::Str, t, i, e),
    ensures
        i + 2 <= e,
        s[i] == '"',
        s[e - 1] == '"',
        t == s.subrange(i + 1, e - 1),
        str_content_ok(s.subrange(i + 1, e - 1)),
{
    let lx = seq!['"'] + t + seq!['"'];
    assert(s.subrange(i, e) == lx);
    assert(s.subrange(i, e)[0] == s[i]);
    assert(s.subrange(i, e)[e - 1 - i] == s[e - 1]);
    assert(t =~= s.subrange(i + 1, e - 1)) by {
        assert forall|m: int| 0 <= m < t.len() implies t[m] == s.subrange(i + 1, e - 1)[m] by {
            assert(lx[m + 1] == t[m]);
            assert(s.subrange(i, e)[m + 1] == s[i + 1 + m]);
        }
    }
}

/// At most one token starts at a position.
pub proof fn lemma_token_unique(
    s: Seq<char>,
    i: int,
    k1: TokenKind,
    t1: Seq<char>,
    e1: int,
    k2: TokenKind,
    t2: Seq<char>,
    e2: int,
)
    requires
        token_at(s, k1, t1, i, e1),
        token_at(s, k2, t2, i, e2),
    ensures
        k1 == k2 && t1 == t2 && e1 == e2,
{
    lemma_token_first(s, k1, t1, i, e1);
    lemma_token_first(s, k2, t2, i, e2);
    let idc = |c: char| is_ident_char(c);
    let hexd = |c: char| is_hex_digit(c);
    let digit = |c: char| is_digit(c);
    if k1 == TokenKind::Str {
        lemma_str_token_shape(s, t1, i, e1);
        lemma_str_token_shape(s, t2, i, e2);
        let u = s.skip(i + 1);
        assert(u.take(t1.len() as int) =~= t1);
        assert(u.take(t2.len() as int) =~= t2);
        assert(u[t1.len() as int] == s[e1 - 1]);
        assert(u[t2.len() as int] == s[e2 - 1]);
        lemma_str_unique(u, t1, t2);
    } else if k1 == TokenKind::HexStr || k2 == TokenKind::HexStr {
        lemma_hexstr_unique(s, i, k1, t1, e1, k2, t2, e2);
    } else if is_ident_start(s[i]) {
        lemma_word_chars(s, k1, t1, i, e1);
        lemma_word_chars(s, k2, t2, i, e2);
        lemma_run_end(s, i, e1, e2, idc, idc);
        if is_keyword_kind(k1) {
            lemma_keyword_text(k1);
        }
        if is_keyword_kind(k2) {
            lemma_keyword_text(k2);
        }
    } else if is_digit(s[i]) {
        lemma_number_unique(s, i, k1, t1, e1, k2, t2, e2);
    } else {
        assert(s.subrange(i, e1) == lexeme((k1, t1)));
        assert(s.subrange(i, e2) == lexeme((k2, t2)));
    }
}

proof fn lemma_hexstr_unique(
    s: Seq<char>,
    i: int,
    k1: TokenKind,
    t1: Seq<char>,
    e1: int,
    k2: TokenKind,
    t2: Seq<char>,
    e2: int,
)
    requires
        token_at(s, k1, t1, i, e1),
        token_at(s, k2, t2, i, e2),
        k1 == TokenKind::HexStr || k2 == TokenKind::HexStr,
    ensures
        k1 == k2 && t1 == t2 && e1 == e2,
{
    lemma_token_first(s, k1, t1, i, e1);
    lemma_token_first(s, k2, t2, i, e2);
    assert(is_ident_start(s[i]));
    if k1 == TokenKind::HexStr && k2 == TokenKind::HexStr {
        lemma_hexstr_shape(s, t1, i, e1);
        lemma_hexstr_shape(s, t2, i, e2);
        let hexd = |c: char| is_hex_digit(c);
        lemma_run_end(s, i + 4, e1 - 1, e2 - 1, hexd, hexd);
    } else if k1 == TokenKind::HexStr {
        lemma_hexstr_shape(s, t1, i, e1);
        lemma_not_word_at_hexstr(s, k2, t2, i, e2);
    } else {
        lemma_hexstr_shape(s, t2, i, e2);
        lemma_not_word_at_hexstr(s, k1, t1, i, e1);
    }
}

pub(crate) proof fn lemma_hexstr_shape(s: Seq<char>, t: Seq<char>, i: int, e: int)
    requires
        token_at(s, TokenKind::HexStr, t, i, e),
    ensures
        e == i + 5 + t.len(),
        t == s.subrange(i + 4, e - 1),
        forall|m: int| i + 4 <= m < e - 1 ==> is_hex_digit(#[trigger] s[m]),
        s[e - 1] == '"',
        !is_hex_digit(s[e - 1]),
{
    let lx = seq!['h', 'e', 'x', '"'] + t + seq!['"'];
    assert(s.subrange(i, e) == lx);
    assert(t =~= s.subrange(i + 4, e - 1)) by {
        assert forall|m: int| 0 <= m < t.len() implies t[m] == s.subrange(i + 4, e - 1)[m] by {
            assert(lx[m + 4] == t[m]);
            assert(s.subrange(i, e)[m + 4] == s[i + 4 + m]);
        }
    }
    assert forall|m: int| i + 4 <= m < e - 1 implies is_hex_digit(#[trigger] s[m]) by {
        assert(s[m] == t[m - i - 4]);
    }
    assert(s.subrange(i, e)[e - 1 - i] == s[e - 1]);
}

/// Only a hex string starts where `hex"` does.
pub(crate) proof fn lemma_not_word_at_hexstr(s: Seq<char>, k: TokenKind, t: Seq<char>, i: int, e: int)
    requires
        token_at(s, k, t, i, e),
        i + 3 < s.len(),
        s[i] == 'h' && s[i + 1] == 'e' && s[i + 2] == 'x' && s[i + 3] == '"',
    ensures
        k == TokenKind::HexStr,
{
    lemma_token_first(s, k, t, i, e);
    if k == TokenKind::HexStr {
        return;
    }
    lemma_word_chars(s, k, t, i, e);
    let idc = |c: char| is_ident_char(c);
    assert(forall|m: int| i <= m < i + 3 ==> idc(#[trigger] s[m]));
    lemma_run_end(s, i, e, i + 3, idc, idc);
    assert(t =~= seq!['h', 'e', 'x']);
    if is_keyword_kind(k) {
        lemma_keyword_text(k);
    }
}

proof fn lemma_number_unique(
    s: Seq<char>,
    i: int,
    k1: TokenKind,
    t1: Seq<char>,
    e1: int,
    k2: TokenKind,
    t2: Seq<char>,
    e2: int,
)
    requires
        token_at(s, k1, t1, i, e1),
        token_at(s, k2, t2, i, e2),
        is_digit(s[i]),
    ensures
        k1 == k2 && t1 == t2 && e1 == e2,
{
    lemma_token_first(s, k1, t1, i, e1);
    lemma_token_first(s, k2, t2, i, e2);
    lemma_number_shape(s, k1, t1, i, e1);
    lemma_number_shape(s, k2, t2, i, e2);
    let idc = |c: char| is_ident_char(c);
    let hexd = |c: char| is_hex_digit(c);
    let digit = |c: char| is_digit(c);
    if k1 == TokenKind::HexNumber && k2 == TokenKind::HexNumber {
        lemma_run_end(s, i + 2, e1, e2, hexd, idc);
    } else if k1 == TokenKind::DecNumber && k2 == TokenKind::DecNumber {
        lemma_run_end(s, i, e1, e2, digit, idc);
    } else if k1 == TokenKind::HexNumber {
        assert(!is_digit(s[i + 1]));
        assert(e2 == i + 1);
    } else {
        assert(!is_digit(s[i + 1]));
        assert(e1 == i + 1);
    }
}

pub(crate) proof fn lemma_number_shape(s: Seq<char>, k: TokenKind, t: Seq<char>, i: int, e: int)
    requires
        token_at(s, k, t, i, e),
        k == TokenKind::HexNumber || k == TokenKind::DecNumber,
    ensures
        t == s.subrange(i, e),
        e == s.len() || !is_ident_char(s[e]),
        k == TokenKind::HexNumber ==> forall|m: int| i + 2 <= m < e ==> is_hex_digit(#[trigger] s[m]),
        k == TokenKind::DecNumber ==> forall|m: int| i <= m < e ==> is_digit(#[trigger] s[m]),
{
    assert(s.subrange(i, e) == t);
    assert forall|m: int| i <= m < e implies s[m] == t[m - i] by {
        assert(s.subrange(i, e)[m - i] == s[m]);
    }
}

/// No trivia runs on from a block comment that is never closed.
pub proof fn lemma_unclosed_comment(s: Seq<char>, p: int, x: int)
    requires
        0 <= p,
        p + 1 < s.len(),
        s[p] == '/' && s[p + 1] == '*',
        forall|k: int| p + 2 <= k < s.len() - 1 ==> !(#[trigger] s[k] == '*' && s[k + 1] == '/'),
        trivia_between(s, p, x),
    ensures
        x == p,
{
    if p < x {
        let j = choose|j: int| p < j <= x && #[trigger] trivia_piece(s, p, j) && trivia_between(s, j, x);
        assert(trivia_piece(s, p, j));
        let k = j - 2;
        assert(s[k] == '*' && s[k + 1] == '/');
    }
}

/// Two tokens are the same token at the same place.
pub open spec fn same_token(a: super::lexer::Token, b: super::lexer::Token) -> bool {
    a.kind == b.kind && a.text@ == b.text@ && a.start == b.start && a.end == b.end
}

/// The characters that separate tokens as whitespace: tab, line feed,
/// vertical tab, form feed, carriage return, space, next line, no-break
/// space, ogham space mark, the spaces from en quad to hair space, line and
/// paragraph separator, narrow no-break space, medium mathematical space and
/// ideographic space.
pub open spec fn is_listed_whitespace(c: char) -> bool {
    c == '\t' || c == '\n' || c == '\u{b}' || c == '\u{c}' || c == '\r' || c == ' ' || c == '\u{85}' || c
        == '\u{a0}' || c == '\u{1680}' || c == '\u{2000}' || c == '\u{2001}' || c == '\u{2002}' || c == '\u{2003}'
        || c == '\u{2004}' || c == '\u{2005}' || c == '\u{2006}' || c == '\u{2007}' || c == '\u{2008}' || c
        == '\u{2009}' || c == '\u{200a}' || c == '\u{2028}' || c == '\u{2029}' || c == '\u{202f}' || c == '\u{205f}'
        || c == '\u{3000}'
}

/// Any run of whitespace, tabs included, is trivia: it may stand between
/// and around tokens.
pub proof fn law_whitespace_is_trivia(s: Seq<char>, a: int, b: int)
    requires
        0 <= a <= b <= s.len(),
        forall|k: int| a <= k < b ==> is_listed_whitespace(#[trigger] s[k]),
    ensures
        trivia_between(s, a, b),
    decreases b - a,
{
    if a < b {
        law_whitespace_is_trivia(s, a + 1, b);
        assert(is_listed_whitespace(s[a]));
        assert(trivia_piece(s, a, a + 1));
    }
}

/// Where `c` is a decimal digit or a letter from `a` to `f` in either case.
pub open spec fn is_listed_hex_digit(c: char) -> bool {
    ('0' <= c && c <= '9') || ('a' <= c && c <= 'f') || ('A' <= c && c <= 'F')
}

/// `0x` and one or more hexadecimal digits, of either case, are read as one
/// hexadecimal number token with that text, where what follows them cannot
/// continue a word (nothing, or no letter, digit, `_`, `$` or `.`); and a
/// text that is just such a number splits into that one token and no other
/// way.
pub proof fn law_hex_number_token(text: Seq<char>, d: Seq<char>, rest: Seq<char>)
    requires
        text == seq!['0', 'x'] + d + rest,
        d.len() >= 1,
        forall|k: int| 0 <= k < d.len() ==> is_listed_hex_digit(#[trigger] d[k]),
        rest.len() == 0 || !(('a' <= rest[0] && rest[0] <= 'z') || ('A' <= rest[0] && rest[0] <= 'Z') || ('0'
            <= rest[0] && rest[0] <= '9') || rest[0] == '_' || rest[0] == '$' || rest[0] == '.'),
    ensures
        token_at(text, TokenKind::HexNumber, seq!['0', 'x'] + d, 0, 2 + d.len() as int),
        rest.len() == 0 ==> forall|l: Seq<super::lexer::Token>|
            #[trigger] super::lexer::lexes(text, l) ==> l.len() == 1 && l[0].kind == TokenKind::HexNumber
                && l[0].text@ == text && l[0].start == 0 && l[0].end == text.len(),
{
    let t = seq!['0', 'x'] + d;
    let n = t.len() as int;
    assert(text.subrange(0, n) =~= t);
    assert forall|i: int| 2 <= i < t.len() implies is_hex_digit(#[trigger] t[i]) by {
        assert(t[i] == d[i - 2]);
        assert(is_listed_hex_digit(d[i - 2]));
    }
    if n < text.len() {
        assert(text[n] == rest[0]);
    }
    assert(token_at(text, TokenKind::HexNumber, t, 0, n));
    if rest.len() == 0 {
        assert(text =~= t);
        assert forall|l: Seq<super::lexer::Token>| #[trigger] super::lexer::lexes(text, l) implies l.len() == 1
            && l[0].kind == TokenKind::HexNumber && l[0].text@ == text && l[0].start == 0 && l[0].end
            == text.len() by {
            assert(text[0] == '0');
            if l.len() == 0 {
                lemma_trivia_starts(text, 0, text.len() as int);
            } else {
                let s0 = l[0].start as int;
                assert(super::lexer::token_in(text, l[0]));
                if s0 > 0 {
                    lemma_trivia_starts(text, 0, s0);
                }
                lemma_token_unique(text, 0, TokenKind::HexNumber, t, n, l[0].kind, l[0].text@, l[0].end as int);
                if l.len() > 1 {
                    assert(super::lexer::token_in(text, l[1]));
                    assert(super::lexer::gap_ok(text, l, 0));
                }
            }
        }
    }
}

} // verus!
