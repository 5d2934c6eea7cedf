//! The tokens of the text in which versions, steps and rules are declared.
//!
//! A text is a sequence of characters. Blanks and line comments separate
//! tokens and are otherwise passed over. A token is a word, a number, a
//! text between double quotes, or a punctuation mark; `=>` and `::` are one
//! mark each. A token does not hold its characters: it says where in the
//! text they stand.

use vstd::prelude::*;

verus! {

/// What a token is.
#[derive(Clone, Copy, Debug, PartialEq, Eq, Structural)]
pub enum TokenKind {
    /// A word: a letter or an underscore, then letters, digits, underscores.
    Ident,
    /// A run of decimal digits.
    Int,
    /// A text between double quotes, without the quotes.
    Str,
    Plus,
    Minus,
    Colon,
    PathSep,
    Comma,
    Dot,
    Pound,
    FatArrow,
    LParen,
    RParen,
    LBrace,
    RBrace,
    LBracket,
    RBracket,
    Lt,
    Gt,
    /// Any other mark.
    Other,
}

/// A token: its kind, and the range of the text that holds its
/// characters.
#[derive(Clone, Copy, Debug, PartialEq, Eq, Structural)]
pub struct Token {
    pub kind: TokenKind,
    pub start: usize,
    pub end: usize,
}

/// Whether a character is a blank.
pub open spec fn is_space(c: char) -> bool {
    c == ' ' || c == '\n' || c == '\t' || c == '\r'
}

/// Whether a character is a decimal digit.
pub open spec fn is_digit(c: char) -> bool {
    '0' <= c && c <= '9'
}

/// Whether a word may begin with a character: a letter or an underscore.
pub open spec fn is_word_start(c: char) -> bool {
    ('a' <= c && c <= 'z') || ('A' <= c && c <= 'Z') || c == '_'
}

/// Whether a word may go on with a character: a letter, an underscore or
/// a digit.
pub open spec fn is_word_part(c: char) -> bool {
    is_word_start(c) || is_digit(c)
}

/// The kind of a mark that is a single character.
pub open spec fn mark_kind(c: char) -> TokenKind {
    if c == '+' {
        TokenKind::Plus
    } else if c == '-' {
        TokenKind::Minus
    } else if c == ',' {
        TokenKind::Comma
    } else if c == '.' {
        TokenKind::Dot
    } else if c == '#' {
        TokenKind::Pound
    } else if c == '(' {
        TokenKind::LParen
    } else if c == ')' {
        TokenKind::RParen
    } else if c == '{' {
        TokenKind::LBrace
    } else if c == '}' {
        TokenKind::RBrace
    } else if c == '[' {
        TokenKind::LBracket
    } else if c == ']' {
        TokenKind::RBracket
    } else if c == '<' {
        TokenKind::Lt
    } else if c == '>' {
        TokenKind::Gt
    } else {
        TokenKind::Other
    }
}

/// Where the word that holds position `i - 1` ends.
pub open spec fn word_end(s: Seq<char>, i: int) -> int
    decreases s.len() - i,
{
    if 0 <= i < s.len() && is_word_part(s[i]) {
        word_end(s, i + 1)
    } else {
        i
    }
}

/// Where the number that holds position `i - 1` ends.
pub open spec fn digits_end(s: Seq<char>, i: int) -> int
    decreases s.len() - i,
{
    if 0 <= i < s.len() && is_digit(s[i]) {
        digits_end(s, i + 1)
    } else {
        i
    }
}

/// Where the line that holds position `i` ends: at its newline, or at the
/// end of the text.
pub open spec fn line_end(s: Seq<char>, i: int) -> int
    decreases s.len() - i,
{
    if 0 <= i < s.len() && s[i] != '\n' {
        line_end(s, i + 1)
    } else {
        i
    }
}

/// The position of the double quote that closes a text whose content
/// begins at `i`. A text that holds a backslash or does not end has none.
pub open spec fn quote_end(s: Seq<char>, i: int) -> Option<int>
    decreases s.len() - i,
{
    if 0 <= i < s.len() {
        if s[i] == '"' {
            Some(i)
        } else if s[i] == '\\' {
            None
        } else {
            quote_end(s, i + 1)
        }
    } else {
        None
    }
}

/// The first position at or after `i` that holds neither a blank nor a
/// line comment.
pub open spec fn blank_end(s: Seq<char>, i: int) -> int
    decreases s.len() - i,
{
    if 0 <= i < s.len() {
        if is_space(s[i]) {
            blank_end(s, i + 1)
        } else if s[i] == '/' && i + 1 < s.len() && s[i + 1] == '/' {
            let e = line_end(s, i + 2);
            if i < e <= s.len() {
                blank_end(s, e)
            } else {
                i
            }
        } else {
            i
        }
    } else {
        i
    }
}

/// The token that begins at `i`, and where the text goes on after it.
pub open spec fn token_at(s: Seq<char>, i: int) -> Option<(Token, int)> {
    let c = s[i];
    if is_word_start(c) {
        let e = word_end(s, i + 1);
        Some((Token { kind: TokenKind::Ident, start: i as usize, end: e as usize }, e))
    } else if is_digit(c) {
        let e = digits_end(s, i + 1);
        Some((Token { kind: TokenKind::Int, start: i as usize, end: e as usize }, e))
    } else if c == '"' {
        match quote_end(s, i + 1) {
            Some(e) => Some(
                (Token { kind: TokenKind::Str, start: (i + 1) as usize, end: e as usize }, e + 1),
            ),
            None => None,
        }
    } else if c == '=' && i + 1 < s.len() && s[i + 1] == '>' {
        Some(
            (Token { kind: TokenKind::FatArrow, start: i as usize, end: (i + 2) as usize }, i + 2),
        )
    } else if c == ':' && i + 1 < s.len() && s[i + 1] == ':' {
        Some((Token { kind: TokenKind::PathSep, start: i as usize, end: (i + 2) as usize }, i + 2))
    } else if c == ':' {
        Some((Token { kind: TokenKind::Colon, start: i as usize, end: (i + 1) as usize }, i + 1))
    } else {
        Some((Token { kind: mark_kind(c), start: i as usize, end: (i + 1) as usize }, i + 1))
    }
}

/// The tokens of the text from position `i` on. A text between double
/// quotes that does not end, or that holds a backslash, leaves the whole
/// without tokens.
pub open spec fn tokens_from(s: Seq<char>, i: int) -> Option<Seq<Token>>
    decreases s.len() - i,
{
    let j = blank_end(s, i);
    if j < 0 || j >= s.len() {
        Some(Seq::empty())
    } else {
        match token_at(s, j) {
            None => None,
            Some((t, k)) => if i <= j < k <= s.len() {
                match tokens_from(s, k) {
                    Some(rest) => Some(seq![t] + rest),
                    None => None,
                }
            } else {
                None
            },
        }
    }
}

/// The tokens of a text.
pub open spec fn tokens_of(s: Seq<char>) -> Option<Seq<Token>> {
    tokens_from(s, 0)
}

/// Whether the tokens lie in the text, one after the other.
pub open spec fn in_text(toks: Seq<Token>, n: int) -> bool {
    forall|k: int| 0 <= k < toks.len() ==> (#[trigger] toks[k]).start <= toks[k].end <= n
}

/// The characters of a text.
pub fn chars_of(text: &str) -> (r: Vec<char>)
    ensures
        r@ == text@,
{
    let mut out: Vec<char> = Vec::new();
    for c in it: text.chars()
        invariant
            out@ == it.seq().take(it.index()),
            it.seq() == text@,
    {
        out.push(c);
    }
    out
}

fn space(c: char) -> (r: bool)
    ensures
        r == is_space(c),
{
    c == ' ' || c == '\n' || c == '\t' || c == '\r'
}

fn digit(c: char) -> (r: bool)
    ensures
        r == is_digit(c),
{
    '0' <= c && c <= '9'
}

fn word_start(c: char) -> (r: bool)
    ensures
        r == is_word_start(c),
{
    ('a' <= c && c <= 'z') || ('A' <= c && c <= 'Z') || c == '_'
}

fn mark(c: char) -> (r: TokenKind)
    ensures
        r == mark_kind(c),
{
    if c == '+' {
        TokenKind::Plus
    } else if c == '-' {
        TokenKind::Minus
    } else if c == ',' {
        TokenKind::Comma
    } else if c == '.' {
        TokenKind::Dot
    } else if c == '#' {
        TokenKind::Pound
    } else if c == '(' {
        TokenKind::LParen
    } else if c == ')' {
        TokenKind::RParen
    } else if c == '{' {
        TokenKind::LBrace
    } else if c == '}' {
        TokenKind::RBrace
    } else if c == '[' {
        TokenKind::LBracket
    } else if c == ']' {
        TokenKind::RBracket
    } else if c == '<' {
        TokenKind::Lt
    } else if c == '>' {
        TokenKind::Gt
    } else {
        TokenKind::Other
    }
}

fn end_of_word(s: &Vec<char>, i: usize) -> (e: usize)
    requires
        i <= s.len(),
    ensures
        e == word_end(s@, i as int),
        i <= e <= s.len(),
{
    let mut e = i;
    while e < s.len() && (word_start(s[e]) || digit(s[e]))
        invariant
            i <= e <= s.len(),
            word_end(s@, i as int) == word_end(s@, e as int),
        decreases s.len() - e,
    {
        e = e + 1;
    }
    e
}

fn end_of_digits(s: &Vec<char>, i: usize) -> (e: usize)
    requires
        i <= s.len(),
    ensures
        e == digits_end(s@, i as int),
        i <= e <= s.len(),
{
    let mut e = i;
    while e < s.len() && digit(s[e])
        invariant
            i <= e <= s.len(),
            digits_end(s@, i as int) == digits_end(s@, e as int),
        decreases s.len() - e,
    {
        e = e + 1;
    }
    e
}

fn end_of_line(s: &Vec<char>, i: usize) -> (e: usize)
    requires
        i <= s.len(),
    ensures
        e == line_end(s@, i as int),
        i <= e <= s.len(),
{
    let mut e = i;
    while e < s.len() && s[e] != '\n'
        invariant
            i <= e <= s.len(),
            line_end(s@, i as int) == line_end(s@, e as int),
        decreases s.len() - e,
    {
        e = e + 1;
    }
    e
}

fn end_of_quote(s: &Vec<char>, i: usize) -> (r: Option<usize>)
    requires
        i <= s.len(),
    ensures
        match r {
            Some(e) => quote_end(s@, i as int) == Some(e as int) && i <= e < s.len(),
            None => quote_end(s@, i as int) is None,
        },
{
    let mut e = i;
    while e < s.len()
        invariant
            i <= e <= s.len(),
            quote_end(s@, i as int) == quote_end(s@, e as int),
        decreases s.len() - e,
    {
        if s[e] == '"' {
            return Some(e);
        }
        if s[e] == '\\' {
            return None;
        }
        e = e + 1;
    }
    None
}

fn end_of_blank(s: &Vec<char>, i: usize) -> (e: usize)
    requires
        i <= s.len(),
    ensures
        e == blank_end(s@, i as int),
        i <= e <= s.len(),
{
    let mut e = i;
    while e < s.len()
        invariant
            i <= e <= s.len(),
            blank_end(s@, i as int) == blank_end(s@, e as int),
        decreases s.len() - e,
    {
        if space(s[e]) {
            e = e + 1;
        } else if s[e] == '/' && e + 1 < s.len() && s[e + 1] == '/' {
            e = end_of_line(s, e + 2);
        } else {
            return e;
        }
    }
    e
}

fn token_from(s: &Vec<char>, i: usize) -> (r: Option<(Token, usize)>)
    requires
        i < s.len(),
    ensures
        match r {
            Some((t, k)) => token_at(s@, i as int) == Some((t, k as int)) && i < k <= s.len()
                && t.start <= t.end <= s.len(),
            None => token_at(s@, i as int) is None,
        },
{
    let c = s[i];
    if word_start(c) {
        let e = end_of_word(s, i + 1);
        Some((Token { kind: TokenKind::Ident, start: i, end: e }, e))
    } else if digit(c) {
        let e = end_of_digits(s, i + 1);
        Some((Token { kind: TokenKind::Int, start: i, end: e }, e))
    } else if c == '"' {
        match end_of_quote(s, i + 1) {
            Some(e) => Some((Token { kind: TokenKind::Str, start: i + 1, end: e }, e + 1)),
            None => None,
        }
    } else if c == '=' && i + 1 < s.len() && s[i + 1] == '>' {
        Some((Token { kind: TokenKind::FatArrow, start: i, end: i + 2 }, i + 2))
    } else if c == ':' && i + 1 < s.len() && s[i + 1] == ':' {
        Some((Token { kind: TokenKind::PathSep, start: i, end: i + 2 }, i + 2))
    } else if c == ':' {
        Some((Token { kind: TokenKind::Colon, start: i, end: i + 1 }, i + 1))
    } else {
        Some((Token { kind: mark(c), start: i, end: i + 1 }, i + 1))
    }
}

/// Splits a text into its tokens.
pub fn tokenize(s: &Vec<char>) -> (r: Option<Vec<Token>>)
    ensures
        match r {
            Some(toks) => tokens_of(s@) == Some(toks@) && in_text(toks@, s@.len() as int),
            None => tokens_of(s@) is None,
        },
{
    let mut out: Vec<Token> = Vec::new();
    let mut i: usize = 0;
    loop
        invariant
            i <= s.len(),
            in_text(out@, s@.len() as int),
            tokens_of(s@) == match tokens_from(s@, i as int) {
                Some(rest) => Some(out@ + rest),
                None => None,
            },
        decreases s.len() - i,
    {
        let j = end_of_blank(s, i);
        if j >= s.len() {
            assert(out@ + Seq::<Token>::empty() =~= out@);
            return Some(out);
        }
        match token_from(s, j) {
            None => {
                return None;
            },
            Some((t, k)) => {
                let ghost before = out@;
                out.push(t);
                proof {
                    match tokens_from(s@, k as int) {
                        Some(rest) => {
                            assert(before + (seq![t] + rest) =~= out@ + rest);
                        },
                        None => {},
                    }
                }
                i = k;
            },
        }
    }
}

} // verus!
