//! Splitting Yul source text into tokens.

use vstd::prelude::*;
use super::ast::{TokenKind, SpecToken, keyword_text};
use super::lex_unique::{lemma_token_first, lemma_str_token_shape, lemma_trivia_boundary, lemma_trivia_starts, lemma_unclosed_comment, lemma_token_unique, same_token, lemma_hexstr_shape, lemma_not_word_at_hexstr, lemma_number_shape, lemma_run_end};

verus! {

/// A token of Yul source: its kind, its text, and where its lexeme stands
/// in the source (in characters).
#[derive(Debug)]
pub struct Token {
    pub kind: TokenKind,
    pub text: String,
    pub start: usize,
    pub end: usize,
}

impl View for Token {
    type V = SpecToken;

    open spec fn view(&self) -> SpecToken {
        (self.kind, self.text@)
    }
}

/// Where the source cannot be split into tokens.
#[derive(Debug, Clone, Copy, PartialEq, Eq, Structural)]
pub struct LexError {
    /// The character position at which no token or comment can be read.
    pub pos: usize,
}

/// Whitespace: the characters of Unicode's White_Space property, those
/// that `char::is_whitespace` accepts.
pub open spec fn is_ws(c: char) -> bool {
    ('\u{9}' <= c && c <= '\u{d}') || c == ' ' || c == '\u{85}' || c == '\u{a0}' || c == '\u{1680}' || ('\u{2000}'
        <= c && c <= '\u{200a}') || c == '\u{2028}' || c == '\u{2029}' || c == '\u{202f}' || c == '\u{205f}' || c
        == '\u{3000}'
}

pub open spec fn is_digit(c: char) -> bool {
    '0' <= c && c <= '9'
}

pub open spec fn is_hex_digit(c: char) -> bool {
    is_digit(c) || ('a' <= c && c <= 'f') || ('A' <= c && c <= 'F')
}

pub open spec fn is_ident_start(c: char) -> bool {
    ('a' <= c && c <= 'z') || ('A' <= c && c <= 'Z') || c == '_' || c == '$'
}

pub open spec fn is_ident_char(c: char) -> bool {
    is_ident_start(c) || is_digit(c) || c == '.'
}

/// The keyword that a word spells, if any.
pub open spec fn keyword_of(s: Seq<char>) -> Option<TokenKind> {
    if s == keyword_text(TokenKind::KwFunction) {
        Some(TokenKind::KwFunction)
    } else if s == keyword_text(TokenKind::KwLet) {
        Some(TokenKind::KwLet)
    } else if s == keyword_text(TokenKind::KwIf) {
        Some(TokenKind::KwIf)
    } else if s == keyword_text(TokenKind::KwSwitch) {
        Some(TokenKind::KwSwitch)
    } else if s == keyword_text(TokenKind::KwCase) {
        Some(TokenKind::KwCase)
    } else if s == keyword_text(TokenKind::KwDefault) {
        Some(TokenKind::KwDefault)
    } else if s == keyword_text(TokenKind::KwFor) {
        Some(TokenKind::KwFor)
    } else if s == keyword_text(TokenKind::KwBreak) {
        Some(TokenKind::KwBreak)
    } else if s == keyword_text(TokenKind::KwContinue) {
        Some(TokenKind::KwContinue)
    } else if s == keyword_text(TokenKind::KwLeave) {
        Some(TokenKind::KwLeave)
    } else if s == keyword_text(TokenKind::KwTrue) {
        Some(TokenKind::KwTrue)
    } else if s == keyword_text(TokenKind::KwFalse) {
        Some(TokenKind::KwFalse)
    } else {
        None
    }
}

/// The text of the tokens whose text is fixed: punctuation and keywords.
pub open spec fn fixed_text(k: TokenKind) -> Seq<char> {
    match k {
        TokenKind::LBrace => seq!['{'],
        TokenKind::RBrace => seq!['}'],
        TokenKind::LParen => seq!['('],
        TokenKind::RParen => seq![')'],
        TokenKind::Comma => seq![','],
        TokenKind::Colon => seq![':'],
        TokenKind::Assign => seq![':', '='],
        TokenKind::Arrow => seq!['-', '>'],
        _ => keyword_text(k),
    }
}


/// The characters that a token is written as in the source.
pub open spec fn lexeme(t: SpecToken) -> Seq<char> {
    match t.0 {
        TokenKind::Ident => t.1,
        TokenKind::HexNumber => t.1,
        TokenKind::DecNumber => t.1,
        TokenKind::Str => seq!['"'] + t.1 + seq!['"'],
        TokenKind::HexStr => seq!['h', 'e', 'x', '"'] + t.1 + seq!['"'],
        _ => fixed_text(t.0),
    }
}

/// The text between the quotes of a string literal: no quote, no line
/// break, and a backslash always escapes the character after it.
pub open spec fn str_content_ok(s: Seq<char>) -> bool
    decreases s.len(),
{
    if s.len() == 0 {
        true
    } else if s[0] == '\\' {
        s.len() >= 2 && s[1] != '\n' && str_content_ok(s.skip(2))
    } else {
        s[0] != '"' && s[0] != '\n' && str_content_ok(s.skip(1))
    }
}

/// Whether the text of a token is one its kind allows.
pub open spec fn wf_token(t: SpecToken) -> bool {
    match t.0 {
        TokenKind::Ident => t.1.len() >= 1 && is_ident_start(t.1[0]) && (forall|i: int|
            1 <= i < t.1.len() ==> is_ident_char(#[trigger] t.1[i])) && keyword_of(t.1) is None,
        TokenKind::HexNumber => t.1.len() >= 3 && t.1[0] == '0' && t.1[1] == 'x' && (forall|i: int|
            2 <= i < t.1.len() ==> is_hex_digit(#[trigger] t.1[i])),
        TokenKind::DecNumber => t.1.len() >= 1 && (forall|i: int|
            0 <= i < t.1.len() ==> is_digit(#[trigger] t.1[i])),
        TokenKind::Str => str_content_ok(t.1),
        TokenKind::HexStr => forall|i: int| 0 <= i < t.1.len() ==> is_hex_digit(#[trigger] t.1[i]),
        _ => t.1 == fixed_text(t.0),
    }
}

/// Tokens that are words: they may not be followed by a character that
/// could continue them.
pub open spec fn is_word_kind(k: TokenKind) -> bool {
    !(k == TokenKind::LBrace || k == TokenKind::RBrace || k == TokenKind::LParen || k
        == TokenKind::RParen || k == TokenKind::Comma || k == TokenKind::Colon || k
        == TokenKind::Assign || k == TokenKind::Arrow || k == TokenKind::Str || k
        == TokenKind::HexStr)
}

/// A token of kind `kind` and text `text` is read at `s[start..end]`: the
/// span holds its lexeme, the text suits the kind, and it is the longest
/// token that starts there.
pub open spec fn token_at(s: Seq<char>, kind: TokenKind, text: Seq<char>, start: int, end: int) -> bool {
    &&& 0 <= start < end <= s.len()
    &&& s.subrange(start, end) == lexeme((kind, text))
    &&& wf_token((kind, text))
    &&& is_word_kind(kind) ==> (end == s.len() || !is_ident_char(s[end]))
    &&& kind == TokenKind::Colon ==> (end == s.len() || s[end] != '=')
    &&& (kind == TokenKind::Ident && text == seq!['h', 'e', 'x']) ==> (end == s.len() || s[end]
        != '"')
}

/// `tok` is read where it stands in `s`.
pub open spec fn token_in(s: Seq<char>, tok: Token) -> bool {
    token_at(s, tok.kind, tok.text@, tok.start as int, tok.end as int)
}

/// `s[a..j]` is one whitespace character, a line comment that runs to the
/// end of its line, or a block comment that ends at its first `*/`.
pub open spec fn trivia_piece(s: Seq<char>, a: int, j: int) -> bool {
    ||| (0 <= a && j == a + 1 && j <= s.len() && is_ws(s[a]))
    ||| (0 <= a && a + 2 <= j <= s.len() && s[a] == '/' && s[a + 1] == '/' && (forall|k: int|
        a + 2 <= k < j ==> #[trigger] s[k] != '\n') && (j == s.len() || s[j] == '\n'))
    ||| (0 <= a && a + 4 <= j <= s.len() && s[a] == '/' && s[a + 1] == '*' && s[j - 2] == '*' && s[j
        - 1] == '/' && (forall|k: int| a + 2 <= k < j - 2 ==> !(#[trigger] s[k] == '*' && s[k + 1] == '/')))
}

/// `s[a..b]` consists of whitespace and comments only.
pub open spec fn trivia_between(s: Seq<char>, a: int, b: int) -> bool
    decreases b - a,
{
    0 <= a <= b <= s.len() && (a == b || exists|j: int|
        a < j <= b && #[trigger] trivia_piece(s, a, j) && trivia_between(s, j, b))
}

/// Between token `i` and token `i + 1` stands only trivia.
pub open spec fn gap_ok(s: Seq<char>, toks: Seq<Token>, i: int) -> bool {
    trivia_between(s, toks[i].end as int, toks[i + 1].start as int)
}

/// `toks` are the tokens of `s[0..upto]`, in order, with only trivia
/// around and between them.
pub open spec fn lexes_upto(s: Seq<char>, toks: Seq<Token>, upto: int) -> bool {
    &&& forall|i: int| 0 <= i < toks.len() ==> token_in(s, #[trigger] toks[i])
    &&& forall|i: int| 0 <= i < toks.len() - 1 ==> #[trigger] gap_ok(s, toks, i)
    &&& toks.len() == 0 ==> trivia_between(s, 0, upto)
    &&& toks.len() > 0 ==> trivia_between(s, 0, toks[0].start as int) && trivia_between(
        s,
        toks.last().end as int,
        upto,
    )
}

/// `toks` are the tokens of the whole of `s`.
pub open spec fn lexes(s: Seq<char>, toks: Seq<Token>) -> bool {
    lexes_upto(s, toks, s.len() as int)
}

/// What the parser sees of a token sequence.
pub open spec fn token_views(toks: Seq<Token>) -> Seq<SpecToken> {
    Seq::new(toks.len(), |i: int| toks[i]@)
}

proof fn lemma_trivia_concat(s: Seq<char>, a: int, b: int, c: int)
    requires
        trivia_between(s, a, b),
        trivia_between(s, b, c),
    ensures
        trivia_between(s, a, c),
    decreases b - a,
{
    if a < b {
        let j = choose|j: int| a < j <= b && #[trigger] trivia_piece(s, a, j) && trivia_between(s, j, b);
        lemma_trivia_concat(s, j, b, c);
        assert(a < j <= c && trivia_piece(s, a, j) && trivia_between(s, j, c));
    }
}

proof fn lemma_trivia_piece(s: Seq<char>, a: int, j: int)
    requires
        a < j,
        trivia_piece(s, a, j),
    ensures
        trivia_between(s, a, j),
{
    assert(trivia_between(s, j, j));
}

proof fn lemma_str_extend_plain(t: Seq<char>, c: char)
    requires
        str_content_ok(t),
        c != '"' && c != '\n' && c != '\\',
    ensures
        str_content_ok(t.push(c)),
    decreases t.len(),
{
    let u = t.push(c);
    if t.len() == 0 {
        assert(u.skip(1) =~= Seq::<char>::empty());
        assert(str_content_ok(u.skip(1)));
        assert(u[0] == c);
    } else if t[0] == '\\' {
        lemma_str_extend_plain(t.skip(2), c);
        assert(u.skip(2) =~= t.skip(2).push(c));
        assert(u[0] == t[0] && u[1] == t[1]);
    } else {
        lemma_str_extend_plain(t.skip(1), c);
        assert(u.skip(1) =~= t.skip(1).push(c));
        assert(u[0] == t[0]);
    }
}

proof fn lemma_str_extend_escape(t: Seq<char>, c: char)
    requires
        str_content_ok(t),
        c != '\n',
    ensures
        str_content_ok(t.push('\\').push(c)),
    decreases t.len(),
{
    let u = t.push('\\').push(c);
    if t.len() == 0 {
        assert(u.skip(2) =~= Seq::<char>::empty());
        assert(str_content_ok(u.skip(2)));
        assert(u[0] == '\\' && u[1] == c);
    } else if t[0] == '\\' {
        lemma_str_extend_escape(t.skip(2), c);
        assert(u.skip(2) =~= t.skip(2).push('\\').push(c));
        assert(u[0] == t[0] && u[1] == t[1]);
    } else {
        lemma_str_extend_escape(t.skip(1), c);
        assert(u.skip(1) =~= t.skip(1).push('\\').push(c));
        assert(u[0] == t[0]);
    }
}

fn is_ws_exec(c: char) -> (r: bool)
    ensures
        r == is_ws(c),
{
    ('\u{9}' <= c && c <= '\u{d}') || c == ' ' || c == '\u{85}' || c == '\u{a0}' || c == '\u{1680}' || ('\u{2000}'
        <= c && c <= '\u{200a}') || c == '\u{2028}' || c == '\u{2029}' || c == '\u{202f}' || c == '\u{205f}' || c
        == '\u{3000}'
}

fn is_digit_exec(c: char) -> (r: bool)
    ensures
        r == is_digit(c),
{
    '0' <= c && c <= '9'
}

fn is_hex_digit_exec(c: char) -> (r: bool)
    ensures
        r == is_hex_digit(c),
{
    ('0' <= c && c <= '9') || ('a' <= c && c <= 'f') || ('A' <= c && c <= 'F')
}

fn is_ident_start_exec(c: char) -> (r: bool)
    ensures
        r == is_ident_start(c),
{
    ('a' <= c && c <= 'z') || ('A' <= c && c <= 'Z') || c == '_' || c == '$'
}

fn is_ident_char_exec(c: char) -> (r: bool)
    ensures
        r == is_ident_char(c),
{
    is_ident_start_exec(c) || is_digit_exec(c) || c == '.'
}

/// Skips whitespace and comments from `i` on.
fn skip_trivia(chars: &Vec<char>, i: usize) -> (r: Result<usize, LexError>)
    requires
        i <= chars@.len(),
    ensures
        r matches Ok(j) ==> i <= j <= chars@.len() && trivia_between(chars@, i as int, j as int)
            && (j < chars@.len() ==> !is_ws(chars@[j as int]) && !(chars@[j as int] == '/' && j
            + 1 < chars@.len() && (chars@[j + 1] == '/' || chars@[j + 1] == '*'))),
        r matches Err(e) ==> i <= e.pos && e.pos + 1 < chars@.len() && trivia_between(
            chars@,
            i as int,
            e.pos as int,
        ) && chars@[e.pos as int] == '/' && chars@[e.pos + 1] == '*' && forall|k: int|
            e.pos + 2 <= k < chars@.len() - 1 ==> !(#[trigger] chars@[k] == '*' && chars@[k + 1] == '/'),
{
    let n = chars.len();
    let mut j = i;
    assert(trivia_between(chars@, i as int, i as int));
    while j < n
        invariant
            n == chars@.len(),
            i <= j <= n,
            trivia_between(chars@, i as int, j as int),
        decreases n - j,
    {
        let c = chars[j];
        if is_ws_exec(c) {
            proof {
                assert(trivia_piece(chars@, j as int, j + 1));
                lemma_trivia_piece(chars@, j as int, j + 1);
                lemma_trivia_concat(chars@, i as int, j as int, j + 1);
            }
            j = j + 1;
        } else if c == '/' && j + 1 < n && chars[j + 1] == '/' {
            let mut k = j + 2;
            while k < n && chars[k] != '\n'
                invariant
                    n == chars@.len(),
                    j + 2 <= k <= n,
                    forall|m: int| j + 2 <= m < k ==> #[trigger] chars@[m] != '\n',
                decreases n - k,
            {
                k = k + 1;
            }
            proof {
                assert(trivia_piece(chars@, j as int, k as int));
                lemma_trivia_piece(chars@, j as int, k as int);
                lemma_trivia_concat(chars@, i as int, j as int, k as int);
            }
            j = k;
        } else if c == '/' && j + 1 < n && chars[j + 1] == '*' {
            let mut k = j + 2;
            let mut found = false;
            while n - k >= 2 && !found
                invariant
                    n == chars@.len(),
                    j + 2 <= k,
                    k <= n,
                    found ==> k + 2 <= n && chars@[k as int] == '*' && chars@[k + 1] == '/',
                    forall|m: int| j + 2 <= m < k ==> !(#[trigger] chars@[m] == '*' && chars@[m + 1]
                        == '/'),
                decreases n - k, if found { 0int } else { 1int },
            {
                if chars[k] == '*' && chars[k + 1] == '/' {
                    found = true;
                } else {
                    k = k + 1;
                }
            }
            if !found {
                return Err(LexError { pos: j });
            }
            proof {
                assert(trivia_piece(chars@, j as int, k + 2));
                lemma_trivia_piece(chars@, j as int, k + 2);
                lemma_trivia_concat(chars@, i as int, j as int, k + 2);
            }
            j = k + 2;
        } else {
            return Ok(j);
        }
    }
    Ok(j)
}

/// Whether `chars[i..j]` spells `w`.
fn word_is(chars: &Vec<char>, i: usize, j: usize, w: &str) -> (r: bool)
    requires
        i <= j <= chars@.len(),
    ensures
        r == (chars@.subrange(i as int, j as int) == w@),
{
    let len = w.unicode_len();
    if j - i != len {
        return false;
    }
    let mut k: usize = 0;
    while k < len
        invariant
            i <= j <= chars@.len(),
            j - i == len,
            len == w@.len(),
            k <= len,
            forall|m: int| 0 <= m < k ==> chars@[i + m] == w@[m],
        decreases len - k,
    {
        if chars[i + k] != w.get_char(k) {
            assert(chars@.subrange(i as int, j as int)[k as int] != w@[k as int]);
            return false;
        }
        k = k + 1;
    }
    assert(chars@.subrange(i as int, j as int) =~= w@);
    true
}

/// The keyword that `chars[i..j]` spells, if any.
fn keyword_of_exec(chars: &Vec<char>, i: usize, j: usize) -> (r: Option<TokenKind>)
    requires
        i <= j <= chars@.len(),
    ensures
        r == keyword_of(chars@.subrange(i as int, j as int)),
{
    proof {
        reveal_strlit("function");
        reveal_strlit("let");
        reveal_strlit("if");
        reveal_strlit("switch");
        reveal_strlit("case");
        reveal_strlit("default");
        reveal_strlit("for");
        reveal_strlit("break");
        reveal_strlit("continue");
        reveal_strlit("leave");
        reveal_strlit("true");
        reveal_strlit("false");
        assert("function"@ =~= keyword_text(TokenKind::KwFunction));
        assert("let"@ =~= keyword_text(TokenKind::KwLet));
        assert("if"@ =~= keyword_text(TokenKind::KwIf));
        assert("switch"@ =~= keyword_text(TokenKind::KwSwitch));
        assert("case"@ =~= keyword_text(TokenKind::KwCase));
        assert("default"@ =~= keyword_text(TokenKind::KwDefault));
        assert("for"@ =~= keyword_text(TokenKind::KwFor));
        assert("break"@ =~= keyword_text(TokenKind::KwBreak));
        assert("continue"@ =~= keyword_text(TokenKind::KwContinue));
        assert("leave"@ =~= keyword_text(TokenKind::KwLeave));
        assert("true"@ =~= keyword_text(TokenKind::KwTrue));
        assert("false"@ =~= keyword_text(TokenKind::KwFalse));
    }
    if word_is(chars, i, j, "function") {
        Some(TokenKind::KwFunction)
    } else if word_is(chars, i, j, "let") {
        Some(TokenKind::KwLet)
    } else if word_is(chars, i, j, "if") {
        Some(TokenKind::KwIf)
    } else if word_is(chars, i, j, "switch") {
        Some(TokenKind::KwSwitch)
    } else if word_is(chars, i, j, "case") {
        Some(TokenKind::KwCase)
    } else if word_is(chars, i, j, "default") {
        Some(TokenKind::KwDefault)
    } else if word_is(chars, i, j, "for") {
        Some(TokenKind::KwFor)
    } else if word_is(chars, i, j, "break") {
        Some(TokenKind::KwBreak)
    } else if word_is(chars, i, j, "continue") {
        Some(TokenKind::KwContinue)
    } else if word_is(chars, i, j, "leave") {
        Some(TokenKind::KwLeave)
    } else if word_is(chars, i, j, "true") {
        Some(TokenKind::KwTrue)
    } else if word_is(chars, i, j, "false") {
        Some(TokenKind::KwFalse)
    } else {
        None
    }
}

/// One step of reading a string's content that runs from `j` to a quote
/// at `e - 1`.
proof fn lemma_str_step(s: Seq<char>, j: int, e: int)
    requires
        0 <= j <= e - 1,
        e <= s.len(),
        str_content_ok(s.subrange(j, e - 1)),
        s[e - 1] == '"',
        s[j] != '"',
    ensures
        j < e - 1,
        if s[j] == '\\' {
            j + 2 <= e - 1 && s[j + 1] != '\n' && str_content_ok(s.subrange(j + 2, e - 1))
        } else {
            s[j] != '\n' && str_content_ok(s.subrange(j + 1, e - 1))
        },
{
    let x = s.subrange(j, e - 1);
    assert(x[0] == s[j]);
    if s[j] == '\\' {
        assert(x[1] == s[j + 1]);
        assert(x.skip(2) =~= s.subrange(j + 2, e - 1));
    } else {
        assert(x.skip(1) =~= s.subrange(j + 1, e - 1));
    }
}

/// Where every string token that starts at `i` is ruled out, no token
/// starts there.
proof fn lemma_no_str_token(s: Seq<char>, i: int)
    requires
        0 <= i < s.len(),
        s[i] == '"',
        forall|t: Seq<char>, e: int| !#[trigger] token_at(s, TokenKind::Str, t, i, e),
    ensures
        forall|k: TokenKind, t: Seq<char>, e: int| !#[trigger] token_at(s, k, t, i, e),
{
    assert forall|k: TokenKind, t: Seq<char>, e: int| !#[trigger] token_at(s, k, t, i, e) by {
        if token_at(s, k, t, i, e) {
            lemma_token_first(s, k, t, i, e);
        }
    }
}

/// Reads the token that starts at `i`: its kind, where its text starts and
/// ends, and where its lexeme ends.
fn lex_token(chars: &Vec<char>, i: usize) -> (r: Result<(TokenKind, usize, usize, usize), LexError>)
    requires
        i < chars@.len(),
    ensures
        r matches Ok((kind, ts, te, end)) ==> i <= ts <= te <= end && token_at(
            chars@,
            kind,
            chars@.subrange(ts as int, te as int),
            i as int,
            end as int,
        ),
        r matches Err(e) ==> i <= e.pos < chars@.len(),
        r is Err ==> forall|k: TokenKind, t: Seq<char>, e: int| !#[trigger] token_at(chars@, k, t, i as int, e),
{
    let n = chars.len();
    let c = chars[i];
    let s = Ghost(chars@);
    if c == '{' || c == '}' || c == '(' || c == ')' || c == ',' {
        let kind = if c == '{' {
            TokenKind::LBrace
        } else if c == '}' {
            TokenKind::RBrace
        } else if c == '(' {
            TokenKind::LParen
        } else if c == ')' {
            TokenKind::RParen
        } else {
            TokenKind::Comma
        };
        assert(chars@.subrange(i as int, i + 1) =~= seq![c]);
        return Ok((kind, i, i + 1, i + 1));
    }
    if c == ':' {
        if i + 1 < n && chars[i + 1] == '=' {
            assert(chars@.subrange(i as int, i + 2) =~= seq![':', '=']);
            return Ok((TokenKind::Assign, i, i + 2, i + 2));
        }
        assert(chars@.subrange(i as int, i + 1) =~= seq![':']);
        return Ok((TokenKind::Colon, i, i + 1, i + 1));
    }
    if c == '-' {
        if i + 1 < n && chars[i + 1] == '>' {
            assert(chars@.subrange(i as int, i + 2) =~= seq!['-', '>']);
            return Ok((TokenKind::Arrow, i, i + 2, i + 2));
        }
        proof {
            assert forall|k: TokenKind, t: Seq<char>, e: int| !#[trigger] token_at(chars@, k, t, i as int, e) by {
                if token_at(chars@, k, t, i as int, e) {
                    lemma_token_first(chars@, k, t, i as int, e);
                }
            }
        }
        return Err(LexError { pos: i });
    }
    if c == '"' {
        let mut j = i + 1;
        assert(chars@.subrange(i + 1, j as int) =~= Seq::<char>::empty());
        proof {
            assert forall|t: Seq<char>, e: int| #[trigger] token_at(chars@, TokenKind::Str, t, i as int, e) implies j
                <= e - 1 && str_content_ok(chars@.subrange(j as int, e - 1)) && chars@[e - 1] == '"' by {
                lemma_str_token_shape(chars@, t, i as int, e);
            }
        }
        while j < n && chars[j] != '"'
            invariant
                n == chars@.len(),
                i < n,
                chars@[i as int] == '"',
                i + 1 <= j <= n,
                str_content_ok(chars@.subrange(i + 1, j as int)),
                forall|t: Seq<char>, e: int| #[trigger] token_at(chars@, TokenKind::Str, t, i as int, e) ==> j
                    <= e - 1 && str_content_ok(chars@.subrange(j as int, e - 1)) && chars@[e - 1] == '"',
            decreases n - j,
        {
            proof {
                assert forall|t: Seq<char>, e: int| #[trigger] token_at(chars@, TokenKind::Str, t, i as int, e) implies j
                    < e - 1 && (if chars@[j as int] == '\\' {
                    j + 2 <= e - 1 && chars@[j + 1] != '\n' && str_content_ok(chars@.subrange(j + 2, e - 1))
                } else {
                    chars@[j as int] != '\n' && str_content_ok(chars@.subrange(j + 1, e - 1))
                }) by {
                    lemma_str_step(chars@, j as int, e);
                }
            }
            if chars[j] == '\\' {
                if j + 1 < n && chars[j + 1] != '\n' {
                    proof {
                        lemma_str_extend_escape(chars@.subrange(i + 1, j as int), chars@[j + 1]);
                        assert(chars@.subrange(i + 1, j + 2) =~= chars@.subrange(i + 1, j as int).push(
                            '\\',
                        ).push(chars@[j + 1]));
                    }
                    j = j + 2;
                } else {
                    proof {
                        lemma_no_str_token(chars@, i as int);
                    }
                    return Err(LexError { pos: i });
                }
            } else if chars[j] == '\n' {
                proof {
                    lemma_no_str_token(chars@, i as int);
                }
                return Err(LexError { pos: i });
            } else {
                proof {
                    lemma_str_extend_plain(chars@.subrange(i + 1, j as int), chars@[j as int]);
                    assert(chars@.subrange(i + 1, j + 1) =~= chars@.subrange(i + 1, j as int).push(
                        chars@[j as int],
                    ));
                }
                j = j + 1;
            }
        }
        if j >= n {
            proof {
                assert forall|t: Seq<char>, e: int| #[trigger] token_at(chars@, TokenKind::Str, t, i as int, e) implies false by {}
                lemma_no_str_token(chars@, i as int);
            }
            return Err(LexError { pos: i });
        }
        assert(chars@.subrange(i as int, j + 1) =~= seq!['"'] + chars@.subrange(i + 1, j as int)
            + seq!['"']);
        return Ok((TokenKind::Str, i + 1, j, j + 1));
    }
    if c == 'h' && n - i > 3 && chars[i + 1] == 'e' && chars[i + 2] == 'x' && chars[i + 3] == '"' {
        let mut j = i + 4;
        while j < n && is_hex_digit_exec(chars[j])
            invariant
                n == chars@.len(),
                i + 4 <= j <= n,
                forall|m: int| i + 4 <= m < j ==> is_hex_digit(#[trigger] chars@[m]),
            decreases n - j,
        {
            j = j + 1;
        }
        if j < n && chars[j] == '"' {
            assert(chars@.subrange(i as int, j + 1) =~= seq!['h', 'e', 'x', '"'] + chars@.subrange(
                i + 4,
                j as int,
            ) + seq!['"']);
            assert forall|m: int| 0 <= m < j - (i + 4) implies is_hex_digit(
                #[trigger] chars@.subrange(i + 4, j as int)[m],
            ) by {
                assert(chars@.subrange(i + 4, j as int)[m] == chars@[i + 4 + m]);
            }
            return Ok((TokenKind::HexStr, i + 4, j, j + 1));
        }
        proof {
            assert forall|k: TokenKind, t: Seq<char>, e: int| !#[trigger] token_at(chars@, k, t, i as int, e) by {
                if token_at(chars@, k, t, i as int, e) {
                    lemma_not_word_at_hexstr(chars@, k, t, i as int, e);
                    lemma_hexstr_shape(chars@, t, i as int, e);
                    let hexd = |ch: char| is_hex_digit(ch);
                    lemma_run_end(chars@, i + 4, j as int, e - 1, hexd, hexd);
                }
            }
        }
        return Err(LexError { pos: i });
    }
    if is_ident_start_exec(c) {
        let mut j = i + 1;
        while j < n && is_ident_char_exec(chars[j])
            invariant
                n == chars@.len(),
                i + 1 <= j <= n,
                forall|m: int| i + 1 <= m < j ==> is_ident_char(#[trigger] chars@[m]),
            decreases n - j,
        {
            j = j + 1;
        }
        let ghost text = chars@.subrange(i as int, j as int);
        assert forall|m: int| 1 <= m < text.len() implies is_ident_char(#[trigger] text[m]) by {
            assert(text[m] == chars@[i + m]);
        }
        assert(text[0] == c);
        let kw = keyword_of_exec(chars, i, j);
        match kw {
            Some(k) => {
                return Ok((k, i, j, j));
            },
            None => {
                proof {
                    if text == seq!['h', 'e', 'x'] && j < n {
                        assert(text.len() == 3);
                        assert(text[0] == 'h' && text[1] == 'e' && text[2] == 'x');
                        assert(j == i + 3);
                        assert(chars@[i + 1] == 'e' && chars@[i + 2] == 'x');
                    }
                }
                return Ok((TokenKind::Ident, i, j, j));
            },
        }
    }
    if is_digit_exec(c) {
        if c == '0' && i + 1 < n && chars[i + 1] == 'x' {
            let mut j = i + 2;
            while j < n && is_hex_digit_exec(chars[j])
                invariant
                    n == chars@.len(),
                    i + 2 <= j <= n,
                    forall|m: int| i + 2 <= m < j ==> is_hex_digit(#[trigger] chars@[m]),
                decreases n - j,
            {
                j = j + 1;
            }
            if j == i + 2 {
                proof {
                    assert forall|k: TokenKind, t: Seq<char>, e: int| !#[trigger] token_at(chars@, k, t, i as int, e) by {
                        if token_at(chars@, k, t, i as int, e) {
                            lemma_token_first(chars@, k, t, i as int, e);
                            lemma_number_shape(chars@, k, t, i as int, e);
                            if k == TokenKind::HexNumber {
                                assert(is_hex_digit(chars@[i + 2]));
                            } else {
                                assert(!is_digit(chars@[i + 1]));
                            }
                        }
                    }
                }
                return Err(LexError { pos: i });
            }
            if j < n && is_ident_char_exec(chars[j]) {
                proof {
                    assert forall|k: TokenKind, t: Seq<char>, e: int| !#[trigger] token_at(chars@, k, t, i as int, e) by {
                        if token_at(chars@, k, t, i as int, e) {
                            lemma_token_first(chars@, k, t, i as int, e);
                            lemma_number_shape(chars@, k, t, i as int, e);
                            if k == TokenKind::HexNumber {
                                let hexd = |ch: char| is_hex_digit(ch);
                                assert(e == chars@.len() || !is_hex_digit(chars@[e]));
                                lemma_run_end(chars@, i + 2, j as int, e, hexd, hexd);
                            } else {
                                assert(!is_digit(chars@[i + 1]));
                            }
                        }
                    }
                }
                return Err(LexError { pos: j });
            }
            let ghost text = chars@.subrange(i as int, j as int);
            assert forall|m: int| 2 <= m < text.len() implies is_hex_digit(#[trigger] text[m]) by {
                assert(text[m] == chars@[i + m]);
            }
            assert(text[0] == '0' && text[1] == 'x');
            return Ok((TokenKind::HexNumber, i, j, j));
        }
        let mut j = i + 1;
        while j < n && is_digit_exec(chars[j])
            invariant
                n == chars@.len(),
                i + 1 <= j <= n,
                is_digit(chars@[i as int]),
                forall|m: int| i <= m < j ==> is_digit(#[trigger] chars@[m]),
            decreases n - j,
        {
            j = j + 1;
        }
        if j < n && is_ident_char_exec(chars[j]) {
            proof {
                assert forall|k: TokenKind, t: Seq<char>, e: int| !#[trigger] token_at(chars@, k, t, i as int, e) by {
                    if token_at(chars@, k, t, i as int, e) {
                        lemma_token_first(chars@, k, t, i as int, e);
                        lemma_number_shape(chars@, k, t, i as int, e);
                        if k == TokenKind::DecNumber {
                            let digit = |ch: char| is_digit(ch);
                            assert(e == chars@.len() || !is_digit(chars@[e]));
                            lemma_run_end(chars@, i as int, j as int, e, digit, digit);
                        }
                    }
                }
            }
            return Err(LexError { pos: j });
        }
        let ghost text = chars@.subrange(i as int, j as int);
        assert forall|m: int| 0 <= m < text.len() implies is_digit(#[trigger] text[m]) by {
            assert(text[m] == chars@[i + m]);
        }
        return Ok((TokenKind::DecNumber, i, j, j));
    }
    proof {
        assert forall|k: TokenKind, t: Seq<char>, e: int| !#[trigger] token_at(chars@, k, t, i as int, e) by {
            if token_at(chars@, k, t, i as int, e) {
                lemma_token_first(chars@, k, t, i as int, e);
            }
        }
    }
    Err(LexError { pos: i })
}

/// `toks` agrees with the first tokens of `l`.
pub open spec fn is_prefix_of(toks: Seq<Token>, l: Seq<Token>) -> bool {
    toks.len() <= l.len() && forall|i: int| 0 <= i < toks.len() ==> same_token(#[trigger] toks[i], l[i])
}

/// `toks` is the only way to split `s` into tokens: every token sequence
/// that lexes `s` is `toks`, token for token.
pub open spec fn lexes_only(s: Seq<char>, toks: Seq<Token>) -> bool {
    forall|l: Seq<Token>| #[trigger] lexes(s, l) ==> is_prefix_of(toks, l) && l.len() == toks.len()
}

/// Where the tokens after the first `t` of a lexing `l` of `s` would start:
/// the start of token `t`, or the end of the text.
pub open spec fn next_start(s: Seq<char>, l: Seq<Token>, t: int) -> int {
    if t < l.len() {
        l[t].start as int
    } else {
        s.len() as int
    }
}

/// In a lexing, trivia runs from the end of the first `t` tokens to where
/// the next one starts.
proof fn lemma_gap_to_next(s: Seq<char>, l: Seq<Token>, t: int, pos: int)
    requires
        lexes(s, l),
        0 <= t <= l.len(),
        t == 0 ==> pos == 0,
        t > 0 ==> pos == l[t - 1].end,
    ensures
        trivia_between(s, pos, next_start(s, l, t)),
{
    if t > 0 && t < l.len() {
        assert(gap_ok(s, l, t - 1));
    }
}

/// Splits Yul source text into its tokens, skipping whitespace, line
/// comments and block comments. The tokens are the only ones the text
/// splits into; an error comes exactly where the text splits into none.
pub fn tokenize(input: &str) -> (r: Result<Vec<Token>, LexError>)
    ensures
        r matches Ok(toks) ==> lexes(input@, toks@) && lexes_only(input@, toks@),
        r matches Err(e) ==> e.pos < input@.len() && forall|l: Seq<Token>| !#[trigger] lexes(input@, l),
{
    let n = input.unicode_len();
    let mut chars: Vec<char> = Vec::new();
    let mut i: usize = 0;
    while i < n
        invariant
            n == input@.len(),
            i <= n,
            chars@ == input@.take(i as int),
        decreases n - i,
    {
        chars.push(input.get_char(i));
        i = i + 1;
        assert(chars@ =~= input@.take(i as int));
    }
    assert(chars@ =~= input@);
    let mut toks: Vec<Token> = Vec::new();
    let mut pos: usize = 0;
    assert(trivia_between(chars@, 0, 0));
    loop
        invariant
            n == chars@.len(),
            chars@ == input@,
            pos <= n,
            lexes_upto(chars@, toks@, pos as int),
            toks@.len() == 0 ==> pos == 0,
            toks@.len() > 0 ==> pos == toks@.last().end,
            forall|l: Seq<Token>| #[trigger] lexes(chars@, l) ==> is_prefix_of(toks@, l),
        decreases n - pos,
    {
        let ghost t = toks@.len() as int;
        proof {
            assert forall|l: Seq<Token>| #[trigger] lexes(chars@, l) implies trivia_between(
                chars@,
                pos as int,
                next_start(chars@, l, t),
            ) by {
                assert(is_prefix_of(toks@, l));
                if t > 0 {
                    assert(same_token(toks@[t - 1], l[t - 1]));
                }
                lemma_gap_to_next(chars@, l, t, pos as int);
            }
        }
        let j = match skip_trivia(&chars, pos) {
            Ok(j) => j,
            Err(e) => {
                proof {
                    assert forall|l: Seq<Token>| !#[trigger] lexes(chars@, l) by {
                        if lexes(chars@, l) {
                            let q = next_start(chars@, l, t);
                            if q <= e.pos {
                                lemma_trivia_boundary(chars@, pos as int, q, e.pos as int);
                                if q < e.pos {
                                    lemma_trivia_starts(chars@, q, e.pos as int);
                                    if t < l.len() {
                                        assert(token_in(chars@, l[t]));
                                        lemma_token_first(chars@, l[t].kind, l[t].text@, q, l[t].end as int);
                                    }
                                } else {
                                    assert(t < l.len());
                                    assert(token_in(chars@, l[t]));
                                    lemma_token_first(chars@, l[t].kind, l[t].text@, q, l[t].end as int);
                                }
                            } else {
                                lemma_trivia_boundary(chars@, pos as int, e.pos as int, q);
                                lemma_unclosed_comment(chars@, e.pos as int, q);
                            }
                        }
                    }
                }
                return Err(e);
            },
        };
        proof {
            if toks@.len() == 0 {
                lemma_trivia_concat(chars@, 0, pos as int, j as int);
            } else {
                lemma_trivia_concat(chars@, toks@.last().end as int, pos as int, j as int);
            }
            assert forall|l: Seq<Token>| #[trigger] lexes(chars@, l) implies next_start(chars@, l, t) == j by {
                let q = next_start(chars@, l, t);
                if q < j {
                    lemma_trivia_boundary(chars@, pos as int, q, j as int);
                    lemma_trivia_starts(chars@, q, j as int);
                    if t < l.len() {
                        assert(token_in(chars@, l[t]));
                        lemma_token_first(chars@, l[t].kind, l[t].text@, q, l[t].end as int);
                    }
                } else if q > j {
                    lemma_trivia_boundary(chars@, pos as int, j as int, q);
                    lemma_trivia_starts(chars@, j as int, q);
                }
            }
        }
        if j == n {
            proof {
                assert forall|l: Seq<Token>| #[trigger] lexes(chars@, l) implies is_prefix_of(toks@, l) && l.len()
                    == toks@.len() by {
                    if t < l.len() {
                        assert(token_in(chars@, l[t]));
                    }
                }
            }
            return Ok(toks);
        }
        let (kind, ts, te, end) = match lex_token(&chars, j) {
            Ok(tk) => tk,
            Err(e) => {
                proof {
                    assert forall|l: Seq<Token>| !#[trigger] lexes(chars@, l) by {
                        if lexes(chars@, l) {
                            assert(next_start(chars@, l, t) == j);
                            if t < l.len() {
                                assert(token_in(chars@, l[t]));
                            }
                        }
                    }
                }
                return Err(e);
            },
        };
        let text = String::from_str(input.substring_char(ts, te));
        let tok = Token { kind, text, start: j, end };
        assert(token_in(chars@, tok));
        let ghost old_toks = toks@;
        toks.push(tok);
        proof {
            assert(trivia_between(chars@, end as int, end as int));
            assert forall|k: int| 0 <= k < toks@.len() implies token_in(chars@, #[trigger] toks@[k]) by {
                if k < old_toks.len() {
                    assert(toks@[k] == old_toks[k]);
                }
            }
            assert forall|k: int| 0 <= k < toks@.len() - 1 implies #[trigger] gap_ok(chars@, toks@, k) by {
                if k < old_toks.len() - 1 {
                    assert(toks@[k] == old_toks[k] && toks@[k + 1] == old_toks[k + 1]);
                    assert(gap_ok(chars@, old_toks, k));
                } else {
                    assert(toks@[k] == old_toks.last());
                }
            }
            if old_toks.len() > 0 {
                assert(toks@[0] == old_toks[0]);
            }
            assert forall|l: Seq<Token>| #[trigger] lexes(chars@, l) implies is_prefix_of(toks@, l) by {
                assert(is_prefix_of(old_toks, l));
                assert(next_start(chars@, l, t) == j);
                assert(t < l.len());
                assert(token_in(chars@, l[t]));
                lemma_token_unique(
                    chars@,
                    j as int,
                    kind,
                    chars@.subrange(ts as int, te as int),
                    end as int,
                    l[t].kind,
                    l[t].text@,
                    l[t].end as int,
                );
                assert forall|k: int| 0 <= k < toks@.len() implies same_token(#[trigger] toks@[k], l[k]) by {
                    if k < t {
                        assert(toks@[k] == old_toks[k]);
                        assert(same_token(old_toks[k], l[k]));
                    }
                }
            }
        }
        pos = end;
    }
}

} // verus!
