use vstd::prelude::*;
use crate::error::LiabError;
use crate::text::{str_eq, chars_of, push_char, string_of_range, string_debug, debug_string};
use crate::value::{is_renderer, renderer_of, render};

verus! {

/// A single token produced by the lexer, generic in how text is held: `Token`
/// (= `TokenOf<String>`) in running code, `TokenView` (= `TokenOf<Seq<char>>`)
/// in specifications.
///
/// LIAB numbers are IEEE-754 doubles; a number token carries the bit pattern
/// of its value.
#[derive(Debug, Clone, PartialEq)]
pub enum TokenOf<S> {
    /// A numeric literal (the bits of its `f64` value).
    Number(u64),
    /// A string literal.
    String(S),
    /// A user-defined name.
    Identifier(S),
    Plus,
    Minus,
    Star,
    Slash,
    EqualEqual,
    BangEqual,
    Greater,
    Less,
    GreaterEqual,
    LessEqual,
    Equals,
    LeftParen,
    RightParen,
    LeftBrace,
    RightBrace,
    Semicolon,
    Comma,
    Bang,
    Dot,
    LeftBracket,
    RightBracket,
    Let,
    Print,
    Fn,
    Return,
    If,
    Else,
    While,
    True,
    False,
    Love,
    Export,
    /// End of input.
    Eof,
}

/// A token as produced by `lex`.
pub type Token = TokenOf<String>;

/// The mathematical view of a token.
pub type TokenView = TokenOf<Seq<char>>;

impl View for TokenOf<String> {
    type V = TokenOf<Seq<char>>;

    open spec fn view(&self) -> TokenOf<Seq<char>> {
        match self {
            TokenOf::Number(n) => TokenOf::Number(*n),
            TokenOf::String(s) => TokenOf::String(s@),
            TokenOf::Identifier(s) => TokenOf::Identifier(s@),
            TokenOf::Plus => TokenOf::Plus,
            TokenOf::Minus => TokenOf::Minus,
            TokenOf::Star => TokenOf::Star,
            TokenOf::Slash => TokenOf::Slash,
            TokenOf::EqualEqual => TokenOf::EqualEqual,
            TokenOf::BangEqual => TokenOf::BangEqual,
            TokenOf::Greater => TokenOf::Greater,
            TokenOf::Less => TokenOf::Less,
            TokenOf::GreaterEqual => TokenOf::GreaterEqual,
            TokenOf::LessEqual => TokenOf::LessEqual,
            TokenOf::Equals => TokenOf::Equals,
            TokenOf::LeftParen => TokenOf::LeftParen,
            TokenOf::RightParen => TokenOf::RightParen,
            TokenOf::LeftBrace => TokenOf::LeftBrace,
            TokenOf::RightBrace => TokenOf::RightBrace,
            TokenOf::Semicolon => TokenOf::Semicolon,
            TokenOf::Comma => TokenOf::Comma,
            TokenOf::Bang => TokenOf::Bang,
            TokenOf::Dot => TokenOf::Dot,
            TokenOf::LeftBracket => TokenOf::LeftBracket,
            TokenOf::RightBracket => TokenOf::RightBracket,
            TokenOf::Let => TokenOf::Let,
            TokenOf::Print => TokenOf::Print,
            TokenOf::Fn => TokenOf::Fn,
            TokenOf::Return => TokenOf::Return,
            TokenOf::If => TokenOf::If,
            TokenOf::Else => TokenOf::Else,
            TokenOf::While => TokenOf::While,
            TokenOf::True => TokenOf::True,
            TokenOf::False => TokenOf::False,
            TokenOf::Love => TokenOf::Love,
            TokenOf::Export => TokenOf::Export,
            TokenOf::Eof => TokenOf::Eof,
        }
    }
}


/// The `Debug` text of a token, as used in parser messages; `nd` renders a
/// number, e.g. `Number(42.0)`.
pub open spec fn token_debug(t: TokenView, nd: spec_fn(u64) -> Seq<char>) -> Seq<char> {
    match t {
        TokenOf::Number(b) => "Number("@ + nd(b) + ")"@,
        TokenOf::String(s) => "String("@ + string_debug(s) + ")"@,
        TokenOf::Identifier(s) => "Identifier("@ + string_debug(s) + ")"@,
        TokenOf::Plus => "Plus"@,
        TokenOf::Minus => "Minus"@,
        TokenOf::Star => "Star"@,
        TokenOf::Slash => "Slash"@,
        TokenOf::EqualEqual => "EqualEqual"@,
        TokenOf::BangEqual => "BangEqual"@,
        TokenOf::Greater => "Greater"@,
        TokenOf::Less => "Less"@,
        TokenOf::GreaterEqual => "GreaterEqual"@,
        TokenOf::LessEqual => "LessEqual"@,
        TokenOf::Equals => "Equals"@,
        TokenOf::LeftParen => "LeftParen"@,
        TokenOf::RightParen => "RightParen"@,
        TokenOf::LeftBrace => "LeftBrace"@,
        TokenOf::RightBrace => "RightBrace"@,
        TokenOf::Semicolon => "Semicolon"@,
        TokenOf::Comma => "Comma"@,
        TokenOf::Bang => "Bang"@,
        TokenOf::Dot => "Dot"@,
        TokenOf::LeftBracket => "LeftBracket"@,
        TokenOf::RightBracket => "RightBracket"@,
        TokenOf::Let => "Let"@,
        TokenOf::Print => "Print"@,
        TokenOf::Fn => "Fn"@,
        TokenOf::Return => "Return"@,
        TokenOf::If => "If"@,
        TokenOf::Else => "Else"@,
        TokenOf::While => "While"@,
        TokenOf::True => "True"@,
        TokenOf::False => "False"@,
        TokenOf::Love => "Love"@,
        TokenOf::Export => "Export"@,
        TokenOf::Eof => "Eof"@,
    }
}

/// Renders `token_debug`, numbers with `dbg`.
pub fn debug_token<G: Fn(u64) -> String>(t: &Token, dbg: &G) -> (r: String)
    requires
        is_renderer(*dbg),
    ensures
        r@ == token_debug(t@, renderer_of(*dbg)),
{
    match t {
        TokenOf::Number(b) => {
            let mut r = String::from_str("Number(");
            let d = render(dbg, *b);
            r.append(d.as_str());
            r.append(")");
            r
        },
        TokenOf::String(s) => {
            let mut r = String::from_str("String(");
            let d = debug_string(s);
            r.append(d.as_str());
            r.append(")");
            r
        },
        TokenOf::Identifier(s) => {
            let mut r = String::from_str("Identifier(");
            let d = debug_string(s);
            r.append(d.as_str());
            r.append(")");
            r
        },
        TokenOf::Plus => String::from_str("Plus"),
        TokenOf::Minus => String::from_str("Minus"),
        TokenOf::Star => String::from_str("Star"),
        TokenOf::Slash => String::from_str("Slash"),
        TokenOf::EqualEqual => String::from_str("EqualEqual"),
        TokenOf::BangEqual => String::from_str("BangEqual"),
        TokenOf::Greater => String::from_str("Greater"),
        TokenOf::Less => String::from_str("Less"),
        TokenOf::GreaterEqual => String::from_str("GreaterEqual"),
        TokenOf::LessEqual => String::from_str("LessEqual"),
        TokenOf::Equals => String::from_str("Equals"),
        TokenOf::LeftParen => String::from_str("LeftParen"),
        TokenOf::RightParen => String::from_str("RightParen"),
        TokenOf::LeftBrace => String::from_str("LeftBrace"),
        TokenOf::RightBrace => String::from_str("RightBrace"),
        TokenOf::Semicolon => String::from_str("Semicolon"),
        TokenOf::Comma => String::from_str("Comma"),
        TokenOf::Bang => String::from_str("Bang"),
        TokenOf::Dot => String::from_str("Dot"),
        TokenOf::LeftBracket => String::from_str("LeftBracket"),
        TokenOf::RightBracket => String::from_str("RightBracket"),
        TokenOf::Let => String::from_str("Let"),
        TokenOf::Print => String::from_str("Print"),
        TokenOf::Fn => String::from_str("Fn"),
        TokenOf::Return => String::from_str("Return"),
        TokenOf::If => String::from_str("If"),
        TokenOf::Else => String::from_str("Else"),
        TokenOf::While => String::from_str("While"),
        TokenOf::True => String::from_str("True"),
        TokenOf::False => String::from_str("False"),
        TokenOf::Love => String::from_str("Love"),
        TokenOf::Export => String::from_str("Export"),
        TokenOf::Eof => String::from_str("Eof"),
    }
}

/// What `char::is_alphanumeric` answers for `c` (Unicode Alphabetic or Numeric).
pub uninterp spec fn unicode_alphanumeric(c: char) -> bool;

/// Calls `char::is_alphanumeric`. Claimed: the answer is a function of `c`
/// alone, and on ASCII it is exactly `[A-Za-z0-9]`, as std documents (the
/// Unicode tables beyond ASCII are not restated).
#[verifier::external_body]
fn is_alphanumeric(c: char) -> (r: bool)
    ensures
        r == unicode_alphanumeric(c),
        is_ascii(c) ==> (r == (is_ascii_letter(c) || is_ascii_digit(c))),
{
    c.is_alphanumeric()
}

pub open spec fn is_ascii(c: char) -> bool {
    (c as u32) < 128
}

pub open spec fn is_ascii_digit(c: char) -> bool {
    '0' <= c <= '9'
}

pub open spec fn is_ascii_letter(c: char) -> bool {
    ('a' <= c <= 'z') || ('A' <= c <= 'Z')
}

pub open spec fn is_whitespace(c: char) -> bool {
    c == ' ' || c == '\t' || c == '\n' || c == '\r'
}

/// A character that continues an identifier: a letter, a digit or `_`
/// (on ASCII exactly `[A-Za-z0-9_]`; beyond it, what `char::is_alphanumeric` says).
pub open spec fn is_ident_char(c: char) -> bool {
    if is_ascii(c) {
        is_ascii_letter(c) || is_ascii_digit(c) || c == '_'
    } else {
        unicode_alphanumeric(c)
    }
}

/// The token of a one-character lexeme that never combines with what follows.
pub open spec fn single_char_token(c: char) -> Option<TokenView> {
    if c == '+' { Some(TokenOf::Plus) }
    else if c == '-' { Some(TokenOf::Minus) }
    else if c == '*' { Some(TokenOf::Star) }
    else if c == '.' { Some(TokenOf::Dot) }
    else if c == '(' { Some(TokenOf::LeftParen) }
    else if c == ')' { Some(TokenOf::RightParen) }
    else if c == '{' { Some(TokenOf::LeftBrace) }
    else if c == '}' { Some(TokenOf::RightBrace) }
    else if c == '[' { Some(TokenOf::LeftBracket) }
    else if c == ']' { Some(TokenOf::RightBracket) }
    else if c == ';' { Some(TokenOf::Semicolon) }
    else if c == ',' { Some(TokenOf::Comma) }
    else { None }
}

/// For `=`, `!`, `>`, `<`: the token alone and the token when followed by `=`.
pub open spec fn operator_tokens(c: char) -> Option<(TokenView, TokenView)> {
    if c == '=' { Some((TokenOf::Equals, TokenOf::EqualEqual)) }
    else if c == '!' { Some((TokenOf::Bang, TokenOf::BangEqual)) }
    else if c == '>' { Some((TokenOf::Greater, TokenOf::GreaterEqual)) }
    else if c == '<' { Some((TokenOf::Less, TokenOf::LessEqual)) }
    else { None }
}

/// The token of an identifier-shaped word: a keyword or an identifier.
pub open spec fn word_token(w: Seq<char>) -> TokenView {
    if w == "let"@ { TokenOf::Let }
    else if w == "print"@ { TokenOf::Print }
    else if w == "fn"@ { TokenOf::Fn }
    else if w == "return"@ { TokenOf::Return }
    else if w == "love"@ { TokenOf::Love }
    else if w == "export"@ { TokenOf::Export }
    else if w == "if"@ { TokenOf::If }
    else if w == "else"@ { TokenOf::Else }
    else if w == "while"@ { TokenOf::While }
    else if w == "true"@ { TokenOf::True }
    else if w == "false"@ { TokenOf::False }
    else { TokenOf::Identifier(w) }
}

/// First index `k >= j` that is past the end or holds `'\n'`.
pub open spec fn line_end(s: Seq<char>, j: int) -> int
    decreases s.len() - j,
{
    if j >= s.len() || s[j] == '\n' { j } else { line_end(s, j + 1) }
}

/// First index `k >= j` that is past the end or holds `'"'`.
pub open spec fn quote_end(s: Seq<char>, j: int) -> int
    decreases s.len() - j,
{
    if j >= s.len() || s[j] == '"' { j } else { quote_end(s, j + 1) }
}

/// First index `k >= j` that is past the end or holds a non-digit.
pub open spec fn digits_end(s: Seq<char>, j: int) -> int
    decreases s.len() - j,
{
    if j >= s.len() || !is_ascii_digit(s[j]) { j } else { digits_end(s, j + 1) }
}

/// First index `k >= j` that is past the end or holds a character that cannot
/// continue an identifier.
pub open spec fn ident_end(s: Seq<char>, j: int) -> int
    decreases s.len() - j,
{
    if j >= s.len() || !is_ident_char(s[j]) { j } else { ident_end(s, j + 1) }
}

/// `t` followed by the tokens of `rest`, or the error of `rest`.
pub open spec fn prepend(t: TokenView, rest: Result<Seq<TokenView>, Seq<char>>) -> Result<Seq<TokenView>, Seq<char>> {
    match rest {
        Ok(ts) => Ok(seq![t] + ts),
        Err(e) => Err(e),
    }
}

pub proof fn lemma_line_end(s: Seq<char>, j: int)
    requires 0 <= j,
    ensures j <= line_end(s, j), j <= s.len() ==> line_end(s, j) <= s.len(),
    decreases s.len() - j,
{
    if !(j >= s.len() || s[j] == '\n') { lemma_line_end(s, j + 1); }
}

pub proof fn lemma_quote_end(s: Seq<char>, j: int)
    requires 0 <= j,
    ensures j <= quote_end(s, j), j <= s.len() ==> quote_end(s, j) <= s.len(),
        quote_end(s, j) < s.len() ==> s[quote_end(s, j)] == '"',
    decreases s.len() - j,
{
    if !(j >= s.len() || s[j] == '"') { lemma_quote_end(s, j + 1); }
}

pub proof fn lemma_digits_end(s: Seq<char>, j: int)
    requires 0 <= j,
    ensures j <= digits_end(s, j), j <= s.len() ==> digits_end(s, j) <= s.len(),
    decreases s.len() - j,
{
    if !(j >= s.len() || !is_ascii_digit(s[j])) { lemma_digits_end(s, j + 1); }
}

pub proof fn lemma_ident_end(s: Seq<char>, j: int)
    requires 0 <= j,
    ensures j <= ident_end(s, j), j <= s.len() ==> ident_end(s, j) <= s.len(),
    decreases s.len() - j,
{
    if !(j >= s.len() || !is_ident_char(s[j])) { lemma_ident_end(s, j + 1); }
}

/// The tokens of `s[i..]` (ending with `Eof`), or the message of the first
/// lexical error; `dec` gives the value of a number literal from its text.
pub open spec fn lex_from(s: Seq<char>, i: int, dec: spec_fn(Seq<char>) -> u64) -> Result<Seq<TokenView>, Seq<char>>
    decreases s.len() - i,
{
    if i < 0 || i >= s.len() {
        Ok(seq![TokenOf::Eof])
    } else {
        let c = s[i];
        proof {
            lemma_line_end(s, i + 2);
            lemma_quote_end(s, i + 1);
            lemma_digits_end(s, i + 1);
            lemma_digits_end(s, i);
            lemma_ident_end(s, i + 1);
        }
        if is_whitespace(c) {
            lex_from(s, i + 1, dec)
        } else if single_char_token(c) is Some {
            prepend(single_char_token(c)->0, lex_from(s, i + 1, dec))
        } else if c == '/' {
            if i + 1 < s.len() && s[i + 1] == '/' {
                lex_from(s, line_end(s, i + 2), dec)
            } else {
                prepend(TokenOf::Slash, lex_from(s, i + 1, dec))
            }
        } else if operator_tokens(c) is Some {
            if i + 1 < s.len() && s[i + 1] == '=' {
                prepend((operator_tokens(c)->0).1, lex_from(s, i + 2, dec))
            } else {
                prepend((operator_tokens(c)->0).0, lex_from(s, i + 1, dec))
            }
        } else if c == '"' {
            let j = quote_end(s, i + 1);
            if j < s.len() {
                prepend(TokenOf::String(s.subrange(i + 1, j)), lex_from(s, j + 1, dec))
            } else {
                Err("Unterminated string literal"@)
            }
        } else if is_ascii_digit(c) {
            let j = digits_end(s, i);
            if j < s.len() && s[j] == '.' {
                let k = digits_end(s, j + 1);
                proof { lemma_digits_end(s, j + 1); }
                if k == j + 1 {
                    Err("Invalid number literal: '"@ + s.subrange(i, j + 1) + "'"@)
                } else {
                    prepend(TokenOf::Number(dec(s.subrange(i, k))), lex_from(s, k, dec))
                }
            } else {
                prepend(TokenOf::Number(dec(s.subrange(i, j))), lex_from(s, j, dec))
            }
        } else if is_ascii_letter(c) || c == '_' {
            let j = ident_end(s, i + 1);
            prepend(word_token(s.subrange(i, j)), lex_from(s, j, dec))
        } else {
            Err("Unknown character: '"@ + seq![c] + "'"@)
        }
    }
}

/// The number value `decode` gives for the literal `text`.
pub open spec fn decoded<F: Fn(&str) -> u64>(decode: F, text: Seq<char>) -> u64 {
    (choose|b: u64, x: &str| #[trigger] call_ensures(decode, (x,), b) && x@ == text).0
}

/// `decode` accepts every string and answers the same for equal texts.
pub open spec fn is_number_decoder<F: Fn(&str) -> u64>(decode: F) -> bool {
    &&& forall|x: &str| call_requires(decode, (x,))
    &&& forall|x: &str, y: &str, a: u64, b: u64|
        #![trigger call_ensures(decode, (x,), a), call_ensures(decode, (y,), b)]
        x@ == y@ && call_ensures(decode, (x,), a) && call_ensures(decode, (y,), b) ==> a == b
}

/// `decoded` as a function of the literal text.
pub open spec fn number_of<F: Fn(&str) -> u64>(decode: F) -> spec_fn(Seq<char>) -> u64 {
    |t: Seq<char>| decoded(decode, t)
}

/// The result of lexing `s` with number literals decoded by `decode`.
pub open spec fn spec_lex<F: Fn(&str) -> u64>(s: Seq<char>, decode: F) -> Result<Seq<TokenView>, Seq<char>> {
    lex_from(s, 0, number_of(decode))
}

/// The views of a sequence of tokens.
pub open spec fn token_views(ts: Seq<Token>) -> Seq<TokenView> {
    ts.map_values(|t: Token| t@)
}

/// `ts` followed by the tokens of `r`, or the error of `r`.
pub open spec fn prefix_with(ts: Seq<TokenView>, r: Result<Seq<TokenView>, Seq<char>>) -> Result<Seq<TokenView>, Seq<char>> {
    match r {
        Ok(rest) => Ok(ts + rest),
        Err(e) => Err(e),
    }
}

proof fn lemma_prefix_prepend(ts: Seq<TokenView>, t: TokenView, r: Result<Seq<TokenView>, Seq<char>>)
    ensures
        prefix_with(ts, prepend(t, r)) == prefix_with(ts.push(t), r),
{
    if let Ok(rest) = r {
        assert(ts + (seq![t] + rest) =~= ts.push(t) + rest);
    }
}

/// Where a number literal starting at `i` ends.
pub open spec fn number_end(s: Seq<char>, i: int) -> int {
    let j = digits_end(s, i);
    if j < s.len() && s[j] == '.' { digits_end(s, j + 1) } else { j }
}

/// The number literal starting at `i` has a `.` with no digit after it.
pub open spec fn number_malformed(s: Seq<char>, i: int) -> bool {
    let j = digits_end(s, i);
    j < s.len() && s[j] == '.' && digits_end(s, j + 1) == j + 1
}

/// Reads the number literal starting at `*pos` (a digit) and decodes it.
fn lex_number<F: Fn(&str) -> u64>(chars: &Vec<char>, pos: &mut usize, decode: &F) -> (r: Result<u64, LiabError>)
    requires
        *old(pos) < chars@.len(),
        is_ascii_digit(chars@[*old(pos) as int]),
        is_number_decoder(*decode),
    ensures
        r is Err <==> number_malformed(chars@, *old(pos) as int),
        r matches Err(e) ==> e matches LiabError::SyntaxError(m) && m@ == "Invalid number literal: '"@
            + chars@.subrange(*old(pos) as int, digits_end(chars@, *old(pos) as int) + 1) + "'"@,
        r matches Ok(b) ==> b == decoded(*decode, chars@.subrange(*old(pos) as int, number_end(chars@, *old(pos) as int)))
            && *final(pos) == number_end(chars@, *old(pos) as int),
{
    let ghost s = chars@;
    let mut p: usize = *pos;
    let ghost start = p as int;
    let mut buf = String::new();
    proof { lemma_digits_end(s, start); }
    while p < chars.len() && '0' <= chars[p] && chars[p] <= '9'
        invariant
            0 <= start <= p <= chars@.len(),
            chars@ == s,
            buf@ == s.subrange(start, p as int),
            digits_end(s, start) == digits_end(s, p as int),
        decreases chars@.len() - p,
    {
        push_char(&mut buf, chars[p]);
        p = p + 1;
        assert(buf@ =~= s.subrange(start, p as int));
    }
    let ghost j = p as int;
    assert(digits_end(s, j) == j);
    if p < chars.len() && chars[p] == '.' {
        push_char(&mut buf, '.');
        p = p + 1;
        proof { lemma_digits_end(s, j + 1); }
        let mut has_digit = false;
        while p < chars.len() && '0' <= chars[p] && chars[p] <= '9'
            invariant
                0 <= start <= j, j + 1 <= p <= chars@.len(),
                chars@ == s,
                buf@ == s.subrange(start, p as int),
                digits_end(s, j + 1) == digits_end(s, p as int),
                has_digit == (p > j + 1),
            decreases chars@.len() - p,
        {
            push_char(&mut buf, chars[p]);
            p = p + 1;
            has_digit = true;
            assert(buf@ =~= s.subrange(start, p as int));
        }
        if !has_digit {
            *pos = p;
            let mut m = String::from_str("Invalid number literal: '");
            m.append(buf.as_str());
            m.append("'");
            return Err(LiabError::SyntaxError(m));
        }
    }
    *pos = p;
    let lit = buf.as_str();
    let b = decode(lit);
    proof {
        let text = s.subrange(start, p as int);
        assert(call_ensures(*decode, (lit,), b) && lit@ == text);
        let (b2, x2) = choose|b2: u64, x2: &str| #[trigger] call_ensures(*decode, (x2,), b2) && x2@ == text;
        assert(call_ensures(*decode, (x2,), b2));
    }
    Ok(b)
}

fn continues_identifier(c: char) -> (r: bool)
    ensures
        r == is_ident_char(c),
        is_ascii_letter(c) || c == '_' ==> r,
{
    is_alphanumeric(c) || c == '_'
}

/// Reads the longest run of identifier characters (alphanumeric or `_`)
/// starting at `pos`, and moves `pos` past it.
pub fn lex_identifier(chars: &Vec<char>, pos: &mut usize) -> (word: String)
    ensures
        *final(pos) == ident_end(chars@, *old(pos) as int),
        *old(pos) <= chars@.len() ==> word@ == chars@.subrange(*old(pos) as int, *final(pos) as int),
        *old(pos) > chars@.len() ==> word@ == Seq::<char>::empty(),
{
    let ghost s = chars@;
    let mut p: usize = *pos;
    let ghost start = p as int;
    let mut word = String::new();
    if p > chars.len() {
        return word;
    }
    proof { lemma_ident_end(s, start); }
    while p < chars.len() && continues_identifier(chars[p])
        invariant
            0 <= start <= p <= chars@.len(),
            chars@ == s,
            word@ == s.subrange(start, p as int),
            ident_end(s, start) == ident_end(s, p as int),
        decreases chars@.len() - p,
    {
        push_char(&mut word, chars[p]);
        p = p + 1;
        assert(word@ =~= s.subrange(start, p as int));
    }
    *pos = p;
    word
}

/// Splits `source` into tokens, ending with `Eof`. `decode` gives the value of
/// a number literal (such as `"42"` or `"3.14"`) as the bits of an `f64`.
pub fn lex<F: Fn(&str) -> u64>(source: &str, decode: F) -> (r: Result<Vec<Token>, LiabError>)
    requires
        is_number_decoder(decode),
    ensures
        r is Ok <==> spec_lex(source@, decode) is Ok,
        r matches Ok(ts) ==> token_views(ts@) == spec_lex(source@, decode)->Ok_0,
        r matches Err(e) ==> e matches LiabError::SyntaxError(m) && m@ == spec_lex(source@, decode)->Err_0,
        r matches Ok(ts) ==> ends_with_eof(token_views(ts@)),
{
    proof { law_lex_ends_with_eof(source@, 0, number_of(decode)); }
    let chars = chars_of(source);
    let ghost s = chars@;
    let ghost dec = number_of(decode);
    let mut tokens: Vec<Token> = Vec::new();
    let mut pos: usize = 0;
    assert(token_views(tokens@) =~= Seq::<TokenView>::empty());
    assert(prefix_with(Seq::empty(), lex_from(s, 0, dec)) == lex_from(s, 0, dec)) by {
        if let Ok(rest) = lex_from(s, 0, dec) {
            assert(Seq::<TokenView>::empty() + rest =~= rest);
        }
    }
    while pos < chars.len()
        invariant
            chars@ == s,
            s == source@,
            dec == number_of(decode),
            is_number_decoder(decode),
            pos <= s.len(),
            spec_lex(source@, decode) == prefix_with(token_views(tokens@), lex_from(s, pos as int, dec)),
        decreases s.len() - pos,
    {
        let ghost p = pos as int;
        let ghost before = token_views(tokens@);
        let c = chars[pos];
        proof {
            lemma_line_end(s, p + 2);
            lemma_quote_end(s, p + 1);
            lemma_digits_end(s, p);
            lemma_ident_end(s, p + 1);
            lemma_digits_end(s, p + 1);
            lemma_digits_end(s, digits_end(s, p) + 1);
        }
        let single: Option<Token> =
            if c == '+' { Some(Token::Plus) }
            else if c == '-' { Some(Token::Minus) }
            else if c == '*' { Some(Token::Star) }
            else if c == '.' { Some(Token::Dot) }
            else if c == '(' { Some(Token::LeftParen) }
            else if c == ')' { Some(Token::RightParen) }
            else if c == '{' { Some(Token::LeftBrace) }
            else if c == '}' { Some(Token::RightBrace) }
            else if c == '[' { Some(Token::LeftBracket) }
            else if c == ']' { Some(Token::RightBracket) }
            else if c == ';' { Some(Token::Semicolon) }
            else if c == ',' { Some(Token::Comma) }
            else { None };
        if c == ' ' || c == '\t' || c == '\n' || c == '\r' {
            pos = pos + 1;
        } else if let Some(t) = single {
            assert(single_char_token(c) == Some(t@));
            proof { lemma_prefix_prepend(before, t@, lex_from(s, p + 1, dec)); }
            tokens.push(t);
            assert(token_views(tokens@) =~= before.push(t@));
            pos = pos + 1;
        } else if c == '/' {
            if pos + 1 < chars.len() && chars[pos + 1] == '/' {
                pos = pos + 2;
                while pos < chars.len() && chars[pos] != '\n'
                    invariant
                        p + 2 <= pos <= s.len(),
                        chars@ == s,
                        line_end(s, p + 2) == line_end(s, pos as int),
                    decreases s.len() - pos,
                {
                    pos = pos + 1;
                }
            } else {
                proof { lemma_prefix_prepend(before, TokenOf::Slash, lex_from(s, p + 1, dec)); }
                tokens.push(Token::Slash);
                assert(token_views(tokens@) =~= before.push(TokenOf::Slash));
                pos = pos + 1;
            }
        } else if c == '=' || c == '!' || c == '>' || c == '<' {
            let followed = pos + 1 < chars.len() && chars[pos + 1] == '=';
            let t = if c == '=' {
                if followed { Token::EqualEqual } else { Token::Equals }
            } else if c == '!' {
                if followed { Token::BangEqual } else { Token::Bang }
            } else if c == '>' {
                if followed { Token::GreaterEqual } else { Token::Greater }
            } else {
                if followed { Token::LessEqual } else { Token::Less }
            };
            let width: usize = if followed { 2 } else { 1 };
            proof { lemma_prefix_prepend(before, t@, lex_from(s, p + width, dec)); }
            tokens.push(t);
            assert(token_views(tokens@) =~= before.push(t@));
            pos = pos + width;
        } else if c == '"' {
            let mut j = pos + 1;
            while j < chars.len() && chars[j] != '"'
                invariant
                    p + 1 <= j <= s.len(),
                    chars@ == s,
                    quote_end(s, p + 1) == quote_end(s, j as int),
                decreases s.len() - j,
            {
                j = j + 1;
            }
            if j >= chars.len() {
                return Err(LiabError::SyntaxError(String::from_str("Unterminated string literal")));
            }
            let text = string_of_range(&chars, pos + 1, j);
            let t = Token::String(text);
            proof { lemma_prefix_prepend(before, t@, lex_from(s, j + 1, dec)); }
            tokens.push(t);
            assert(token_views(tokens@) =~= before.push(t@));
            pos = j + 1;
        } else if '0' <= c && c <= '9' {
            let n = lex_number(&chars, &mut pos, &decode);
            match n {
                Ok(b) => {
                    proof { lemma_prefix_prepend(before, TokenOf::Number(b), lex_from(s, pos as int, dec)); }
                    tokens.push(Token::Number(b));
                    assert(token_views(tokens@) =~= before.push(TokenOf::Number(b)));
                },
                Err(e) => {
                    return Err(e);
                },
            }
        } else if ('a' <= c && c <= 'z') || ('A' <= c && c <= 'Z') || c == '_' {
            // A letter or `_` is itself an identifier character.
            let first = continues_identifier(c);
            proof {
                assert(first);
                assert(ident_end(chars@, pos as int) == ident_end(chars@, pos + 1));
            }
            let word = lex_identifier(&chars, &mut pos);
            let t =
                if str_eq(&word, "let") { Token::Let }
                else if str_eq(&word, "print") { Token::Print }
                else if str_eq(&word, "fn") { Token::Fn }
                else if str_eq(&word, "return") { Token::Return }
                else if str_eq(&word, "love") { Token::Love }
                else if str_eq(&word, "export") { Token::Export }
                else if str_eq(&word, "if") { Token::If }
                else if str_eq(&word, "else") { Token::Else }
                else if str_eq(&word, "while") { Token::While }
                else if str_eq(&word, "true") { Token::True }
                else if str_eq(&word, "false") { Token::False }
                else { Token::Identifier(word) };
            proof { lemma_prefix_prepend(before, t@, lex_from(s, pos as int, dec)); }
            tokens.push(t);
            assert(token_views(tokens@) =~= before.push(t@));
        } else {
            let mut m = String::from_str("Unknown character: '");
            push_char(&mut m, c);
            m.append("'");
            return Err(LiabError::SyntaxError(m));
        }
    }
    proof { lemma_prefix_prepend(token_views(tokens@), TokenOf::Eof, lex_from(s, pos as int, dec)); }
    let ghost before = token_views(tokens@);
    tokens.push(Token::Eof);
    assert(token_views(tokens@) =~= before.push(TokenOf::Eof));
    assert(before.push(TokenOf::Eof) =~= before + seq![TokenOf::Eof]);
    Ok(tokens)
}


/// A token stream as the parser expects it: it ends with `Eof`, and `Eof`
/// occurs nowhere else.
pub open spec fn ends_with_eof(ts: Seq<TokenView>) -> bool {
    &&& ts.len() >= 1
    &&& ts.last() == TokenOf::<Seq<char>>::Eof
    &&& forall|k: int| 0 <= k < ts.len() - 1 ==> ts[k] != TokenOf::<Seq<char>>::Eof
}

proof fn lemma_prepend_eof(t: TokenView, rest: Result<Seq<TokenView>, Seq<char>>)
    requires
        t != TokenOf::<Seq<char>>::Eof,
        rest matches Ok(ts) ==> ends_with_eof(ts),
    ensures
        prepend(t, rest) matches Ok(ts) ==> ends_with_eof(ts),
{
    if let Ok(ts) = rest {
        let r = seq![t] + ts;
        assert forall|k: int| 0 <= k < r.len() - 1 implies r[k] != TokenOf::<Seq<char>>::Eof by {
            if k > 0 {
                assert(r[k] == ts[k - 1]);
            }
        }
    }
}

/// Lexing from any position gives a token stream that ends with its only `Eof`.
pub proof fn law_lex_ends_with_eof(s: Seq<char>, i: int, dec: spec_fn(Seq<char>) -> u64)
    ensures
        lex_from(s, i, dec) matches Ok(ts) ==> ends_with_eof(ts),
    decreases s.len() - i,
{
    if i < 0 || i >= s.len() {
    } else {
        let c = s[i];
        lemma_line_end(s, i + 2);
        lemma_quote_end(s, i + 1);
        lemma_digits_end(s, i + 1);
        lemma_digits_end(s, i);
        lemma_ident_end(s, i + 1);
        if is_whitespace(c) {
            law_lex_ends_with_eof(s, i + 1, dec);
        } else if single_char_token(c) is Some {
            law_lex_ends_with_eof(s, i + 1, dec);
            lemma_prepend_eof(single_char_token(c)->0, lex_from(s, i + 1, dec));
        } else if c == '/' {
            if i + 1 < s.len() && s[i + 1] == '/' {
                law_lex_ends_with_eof(s, line_end(s, i + 2), dec);
            } else {
                law_lex_ends_with_eof(s, i + 1, dec);
                lemma_prepend_eof(TokenOf::Slash, lex_from(s, i + 1, dec));
            }
        } else if operator_tokens(c) is Some {
            if i + 1 < s.len() && s[i + 1] == '=' {
                law_lex_ends_with_eof(s, i + 2, dec);
                lemma_prepend_eof((operator_tokens(c)->0).1, lex_from(s, i + 2, dec));
            } else {
                law_lex_ends_with_eof(s, i + 1, dec);
                lemma_prepend_eof((operator_tokens(c)->0).0, lex_from(s, i + 1, dec));
            }
        } else if c == '"' {
            let j = quote_end(s, i + 1);
            if j < s.len() {
                law_lex_ends_with_eof(s, j + 1, dec);
                lemma_prepend_eof(TokenOf::String(s.subrange(i + 1, j)), lex_from(s, j + 1, dec));
            }
        } else if is_ascii_digit(c) {
            let j = digits_end(s, i);
            if j < s.len() && s[j] == '.' {
                let k = digits_end(s, j + 1);
                lemma_digits_end(s, j + 1);
                if k != j + 1 {
                    law_lex_ends_with_eof(s, k, dec);
                    lemma_prepend_eof(TokenOf::Number(dec(s.subrange(i, k))), lex_from(s, k, dec));
                }
            } else {
                law_lex_ends_with_eof(s, j, dec);
                lemma_prepend_eof(TokenOf::Number(dec(s.subrange(i, j))), lex_from(s, j, dec));
            }
        } else if is_ascii_letter(c) || c == '_' {
            let j = ident_end(s, i + 1);
            law_lex_ends_with_eof(s, j, dec);
            lemma_prepend_eof(word_token(s.subrange(i, j)), lex_from(s, j, dec));
        }
    }
}

// ---- what precedes does not matter ------------------------------------------------

proof fn lemma_shift_line_end(p: Seq<char>, s: Seq<char>, j: int)
    requires
        0 <= j,
    ensures
        line_end(p + s, p.len() + j) == p.len() + line_end(s, j),
    decreases s.len() - j,
{
    if j < s.len() {
        assert((p + s)[p.len() + j] == s[j]);
        if s[j] != '\n' {
            lemma_shift_line_end(p, s, j + 1);
        }
    }
}

proof fn lemma_shift_quote_end(p: Seq<char>, s: Seq<char>, j: int)
    requires
        0 <= j,
    ensures
        quote_end(p + s, p.len() + j) == p.len() + quote_end(s, j),
    decreases s.len() - j,
{
    if j < s.len() {
        assert((p + s)[p.len() + j] == s[j]);
        if s[j] != '"' {
            lemma_shift_quote_end(p, s, j + 1);
        }
    }
}

proof fn lemma_shift_digits_end(p: Seq<char>, s: Seq<char>, j: int)
    requires
        0 <= j,
    ensures
        digits_end(p + s, p.len() + j) == p.len() + digits_end(s, j),
    decreases s.len() - j,
{
    if j < s.len() {
        assert((p + s)[p.len() + j] == s[j]);
        if is_ascii_digit(s[j]) {
            lemma_shift_digits_end(p, s, j + 1);
        }
    }
}

proof fn lemma_shift_ident_end(p: Seq<char>, s: Seq<char>, j: int)
    requires
        0 <= j,
    ensures
        ident_end(p + s, p.len() + j) == p.len() + ident_end(s, j),
    decreases s.len() - j,
{
    if j < s.len() {
        assert((p + s)[p.len() + j] == s[j]);
        if is_ident_char(s[j]) {
            lemma_shift_ident_end(p, s, j + 1);
        }
    }
}

/// Lexing does not look back: the tokens from a position depend only on the
/// text from there on, whatever text precedes it.
pub proof fn law_lex_ignores_prefix(p: Seq<char>, s: Seq<char>, i: int, dec: spec_fn(Seq<char>) -> u64)
    requires
        0 <= i,
    ensures
        lex_from(p + s, p.len() + i, dec) == lex_from(s, i, dec),
    decreases s.len() - i,
{
    let t = p + s;
    let n = p.len() as int;
    if i < s.len() {
        let c = s[i];
        assert(t[n + i] == c);
        if i + 1 < s.len() {
            assert(t[n + i + 1] == s[i + 1]);
        }
        lemma_line_end(s, i + 2);
        lemma_quote_end(s, i + 1);
        lemma_digits_end(s, i + 1);
        lemma_digits_end(s, i);
        lemma_ident_end(s, i + 1);
        lemma_shift_line_end(p, s, i + 2);
        lemma_shift_quote_end(p, s, i + 1);
        lemma_shift_digits_end(p, s, i);
        lemma_shift_ident_end(p, s, i + 1);
        let le = line_end(s, i + 2);
        let qe = quote_end(s, i + 1);
        let de = digits_end(s, i);
        let ie = ident_end(s, i + 1);
        if i + 1 <= s.len() { law_lex_ignores_prefix(p, s, i + 1, dec); }
        if i + 2 <= s.len() { law_lex_ignores_prefix(p, s, i + 2, dec); }
        if le <= s.len() { law_lex_ignores_prefix(p, s, le, dec); }
        if qe + 1 <= s.len() { law_lex_ignores_prefix(p, s, qe + 1, dec); }
        if i < de <= s.len() { law_lex_ignores_prefix(p, s, de, dec); }
        if ie <= s.len() { law_lex_ignores_prefix(p, s, ie, dec); }
        if qe < s.len() {
            assert(t.subrange(n + i + 1, n + qe) =~= s.subrange(i + 1, qe));
        }
        if de <= s.len() {
            assert(t.subrange(n + i, n + de) =~= s.subrange(i, de));
        }
        if de < s.len() {
            assert(t[n + de] == s[de]);
            lemma_digits_end(s, de + 1);
            lemma_shift_digits_end(p, s, de + 1);
            let k = digits_end(s, de + 1);
            if k <= s.len() {
                law_lex_ignores_prefix(p, s, k, dec);
                assert(t.subrange(n + i, n + k) =~= s.subrange(i, k));
                assert(t.subrange(n + i, n + de + 1) =~= s.subrange(i, de + 1));
            }
        }
        if ie <= s.len() {
            assert(t.subrange(n + i, n + ie) =~= s.subrange(i, ie));
        }
    }
}

/// Whitespace carries no meaning: a space, tab, newline or carriage return
/// where a token could start is skipped, and so is any run of them before
/// the text; the tokens (or the error) are those of the text without it.
pub proof fn law_whitespace_skipped(s: Seq<char>, i: int, w: char, dec: spec_fn(Seq<char>) -> u64)
    requires
        w == ' ' || w == '\t' || w == '\n' || w == '\r',
    ensures
        0 <= i < s.len() && s[i] == w ==> lex_from(s, i, dec) == lex_from(s, i + 1, dec),
        lex_from(seq![w] + s, 0, dec) == lex_from(s, 0, dec),
{
    law_lex_ignores_prefix(seq![w], s, 0, dec);
    assert((seq![w] + s)[0] == w);
}

/// `lex` over whole texts: whitespace before the text changes nothing.
pub proof fn law_lex_leading_whitespace<F: Fn(&str) -> u64>(w: char, s: Seq<char>, decode: F)
    requires
        w == ' ' || w == '\t' || w == '\n' || w == '\r',
    ensures
        spec_lex(seq![w] + s, decode) == spec_lex(s, decode),
{
    law_whitespace_skipped(s, 0, w, number_of(decode));
}

/// Operators: `=`, `!`, `>`, `<` followed by `=` are one two-character
/// token (`==`, `!=`, `>=`, `<=`), and alone the one-character token; the
/// other operator and punctuation characters are their own tokens.
pub proof fn law_operator_lexemes(s: Seq<char>, i: int, dec: spec_fn(Seq<char>) -> u64)
    requires
        0 <= i < s.len(),
    ensures
        ({
            let eq_next = i + 1 < s.len() && s[i + 1] == '=';
            let two = |t: TokenView| prepend(t, lex_from(s, i + 2, dec));
            let one = |t: TokenView| prepend(t, lex_from(s, i + 1, dec));
            let r = lex_from(s, i, dec);
            &&& s[i] == '=' ==> r == if eq_next { two(TokenOf::EqualEqual) } else { one(TokenOf::Equals) }
            &&& s[i] == '!' ==> r == if eq_next { two(TokenOf::BangEqual) } else { one(TokenOf::Bang) }
            &&& s[i] == '>' ==> r == if eq_next { two(TokenOf::GreaterEqual) } else { one(TokenOf::Greater) }
            &&& s[i] == '<' ==> r == if eq_next { two(TokenOf::LessEqual) } else { one(TokenOf::Less) }
            &&& s[i] == '+' ==> r == one(TokenOf::Plus)
            &&& s[i] == '-' ==> r == one(TokenOf::Minus)
            &&& s[i] == '*' ==> r == one(TokenOf::Star)
            &&& s[i] == '/' && !(i + 1 < s.len() && s[i + 1] == '/') ==> r == one(TokenOf::Slash)
            &&& s[i] == '(' ==> r == one(TokenOf::LeftParen)
            &&& s[i] == ')' ==> r == one(TokenOf::RightParen)
            &&& s[i] == '{' ==> r == one(TokenOf::LeftBrace)
            &&& s[i] == '}' ==> r == one(TokenOf::RightBrace)
            &&& s[i] == '[' ==> r == one(TokenOf::LeftBracket)
            &&& s[i] == ']' ==> r == one(TokenOf::RightBracket)
            &&& s[i] == ';' ==> r == one(TokenOf::Semicolon)
            &&& s[i] == ',' ==> r == one(TokenOf::Comma)
            &&& s[i] == '.' ==> r == one(TokenOf::Dot)
        }),
{
}

/// The token of a keyword, or `None` for any other word.
pub open spec fn keyword(w: Seq<char>) -> Option<TokenView> {
    if w == "let"@ { Some(TokenOf::Let) }
    else if w == "print"@ { Some(TokenOf::Print) }
    else if w == "fn"@ { Some(TokenOf::Fn) }
    else if w == "return"@ { Some(TokenOf::Return) }
    else if w == "love"@ { Some(TokenOf::Love) }
    else if w == "export"@ { Some(TokenOf::Export) }
    else if w == "if"@ { Some(TokenOf::If) }
    else if w == "else"@ { Some(TokenOf::Else) }
    else if w == "while"@ { Some(TokenOf::While) }
    else if w == "true"@ { Some(TokenOf::True) }
    else if w == "false"@ { Some(TokenOf::False) }
    else { None }
}

proof fn lemma_ident_run(s: Seq<char>, j: int, e: int)
    requires
        0 <= j <= e <= s.len(),
        forall|x: int| j <= x < e ==> is_ident_char(#[trigger] s[x]),
        e == s.len() || !is_ident_char(s[e]),
    ensures
        ident_end(s, j) == e,
    decreases e - j,
{
    if j < e {
        assert(is_ident_char(s[j]));
        lemma_ident_run(s, j + 1, e);
    }
}

/// Words: a word that starts with a letter or `_` and runs over letters,
/// digits and `_` is one token, the keyword's token for the eleven keywords
/// and an identifier holding the word for every other word; lexing goes on
/// after the word.
pub proof fn law_words(s: Seq<char>, i: int, e: int, dec: spec_fn(Seq<char>) -> u64)
    requires
        0 <= i < e <= s.len(),
        is_ascii_letter(s[i]) || s[i] == '_',
        forall|x: int| i < x < e ==> is_ident_char(#[trigger] s[x]),
        e == s.len() || !is_ident_char(s[e]),
    ensures
        lex_from(s, i, dec) == prepend(
            match keyword(s.subrange(i, e)) {
                Some(t) => t,
                None => TokenOf::Identifier(s.subrange(i, e)),
            },
            lex_from(s, e, dec),
        ),
{
    lemma_ident_run(s, i + 1, e);
    assert(!is_whitespace(s[i]) && single_char_token(s[i]) is None && operator_tokens(s[i]) is None);
    assert(s[i] != '/' && s[i] != '"' && !is_ascii_digit(s[i]));
}

proof fn lemma_quote_run(s: Seq<char>, j: int, e: int)
    requires
        0 <= j <= e < s.len(),
        forall|x: int| j <= x < e ==> #[trigger] s[x] != '"',
        s[e] == '"',
    ensures
        quote_end(s, j) == e,
    decreases e - j,
{
    if j < e {
        assert(s[j] != '"');
        lemma_quote_run(s, j + 1, e);
    }
}

proof fn lemma_line_run(s: Seq<char>, j: int, e: int)
    requires
        0 <= j <= e <= s.len(),
        forall|x: int| j <= x < e ==> #[trigger] s[x] != '\n',
        e == s.len() || s[e] == '\n',
    ensures
        line_end(s, j) == e,
    decreases e - j,
{
    if j < e {
        assert(s[j] != '\n');
        lemma_line_run(s, j + 1, e);
    }
}

proof fn lemma_digit_run(s: Seq<char>, j: int, e: int)
    requires
        0 <= j <= e <= s.len(),
        forall|x: int| j <= x < e ==> is_ascii_digit(#[trigger] s[x]),
        e == s.len() || !is_ascii_digit(s[e]),
    ensures
        digits_end(s, j) == e,
    decreases e - j,
{
    if j < e {
        assert(is_ascii_digit(s[j]));
        lemma_digit_run(s, j + 1, e);
    }
}

/// Literals and comments. A `"` starts a string literal holding exactly the
/// characters up to the next `"`, and lexing goes on after that quote; with
/// no closing quote it is an error. `//` starts a comment that runs to the
/// end of the line, and lexing goes on at the newline. A run of digits not
/// followed by `.` is one number literal, whose value is that of its text.
pub proof fn law_literals_and_comments(s: Seq<char>, i: int, e: int, dec: spec_fn(Seq<char>) -> u64)
    requires
        0 <= i < e <= s.len(),
    ensures
        s[i] == '"' && e < s.len() && s[e] == '"' && (forall|x: int| i < x < e ==> #[trigger] s[x] != '"')
            ==> lex_from(s, i, dec) == prepend(TokenOf::String(s.subrange(i + 1, e)), lex_from(s, e + 1, dec)),
        s[i] == '"' && e == s.len() && (forall|x: int| i < x < e ==> #[trigger] s[x] != '"')
            ==> lex_from(s, i, dec) == Err::<Seq<TokenView>, Seq<char>>("Unterminated string literal"@),
        s[i] == '/' && i + 1 < e && s[i + 1] == '/' && (e == s.len() || s[e] == '\n')
            && (forall|x: int| i + 2 <= x < e ==> #[trigger] s[x] != '\n')
            ==> lex_from(s, i, dec) == lex_from(s, e, dec),
        (forall|x: int| i <= x < e ==> is_ascii_digit(#[trigger] s[x])) && (e == s.len() || (!is_ascii_digit(s[e]) && s[e] != '.'))
            ==> lex_from(s, i, dec) == prepend(TokenOf::Number(dec(s.subrange(i, e))), lex_from(s, e, dec)),
{
    if s[i] == '"' && (forall|x: int| i < x < e ==> #[trigger] s[x] != '"') {
        if e < s.len() && s[e] == '"' {
            lemma_quote_run(s, i + 1, e);
        }
        if e == s.len() {
            lemma_quote_run_end(s, i + 1);
        }
    }
    if s[i] == '/' && i + 1 < e && s[i + 1] == '/' && (e == s.len() || s[e] == '\n')
        && (forall|x: int| i + 2 <= x < e ==> #[trigger] s[x] != '\n') {
        lemma_line_run(s, i + 2, e);
    }
    if (forall|x: int| i <= x < e ==> is_ascii_digit(#[trigger] s[x])) && (e == s.len() || (!is_ascii_digit(s[e]) && s[e] != '.')) {
        assert(is_ascii_digit(s[i]));
        lemma_digit_run(s, i, e);
    }
}

proof fn lemma_quote_run_end(s: Seq<char>, j: int)
    requires
        0 <= j <= s.len(),
        forall|x: int| j <= x < s.len() ==> #[trigger] s[x] != '"',
    ensures
        quote_end(s, j) == s.len(),
    decreases s.len() - j,
{
    if j < s.len() {
        assert(s[j] != '"');
        lemma_quote_run_end(s, j + 1);
    }
}

} // verus!
