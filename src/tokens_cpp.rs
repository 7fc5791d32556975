use vstd::prelude::*;
use crate::scan::{class_has, digits_value, digits_value_capped, in_class, is_digit, is_hex_digit, is_ident_start, magnitude_limit, scan, scan_run, spells, Class};
use crate::text::{byte_offset, byte_offsets, chars_of, string_of};

verus! {

/// A token of the header dialect.
#[derive(Clone, Debug, PartialEq)]
pub enum Token {
    MacroConfigInt,
    MacroConfigStr,
    MacroConfigColor,
    FlagSave,
    FlagClient,
    FlagServer,
    FlagInsensitive,
    FlagNonTeehistoric,
    FlagMaster,
    FlagEcon,
    FlagGame,
    FlagColAlpha,
    FlagColLight,
    StringLiteral(String),
    Identifier(String),
    Integer(i64),
    LParen,
    RParen,
    Comma,
    Pipe,
    Semicolon,
    MaxClients,
    ServerInfoLevelMin,
    ServerInfoLevelMax,
}

/// Why a piece of input is not a token.
#[derive(Clone, Copy, Debug, PartialEq, Eq, Default, Structural)]
pub enum LexingError {
    /// A numeric literal whose value does not fit in `i64`.
    NumberParseError,
    /// Input that starts no token.
    #[default]
    Other,
}

/// A half-open range `[start, end)` of byte offsets into the source text.
#[derive(Clone, Copy, Debug, PartialEq, Eq, Structural)]
pub struct Span {
    pub start: usize,
    pub end: usize,
}

/// A lexical error, with the byte span of the offending input.
#[derive(Clone, Copy, Debug, PartialEq, Eq, Structural)]
pub enum LexicalError {
    InvalidToken(LexingError, Span),
}

} // verus!

verus! {

/// What the lexer meets at a position once trivia is skipped.
#[derive(Clone, Copy, Debug, PartialEq, Eq, Structural)]
pub enum Step {
    /// The input is exhausted.
    Done,
    /// A token spans `[start, end)`.
    Found { start: usize, end: usize },
    /// No token can start at `start`; lexing resumes at `resume`.
    Fail { reason: LexingError, start: usize, end: usize, resume: usize },
}

/// Where the trivia skipper stands.
#[derive(Clone, Copy, Debug, PartialEq, Eq, Structural)]
pub enum Trivia {
    Code,
    Line,
    Block(usize),
}

pub open spec fn is_blank(c: char) -> bool {
    c == ' ' || c == '\t' || c == '\n' || c == '\x0c'
}

/// Skips whitespace, `#` lines, `//` lines and `/* */` blocks from `p`: the position of the next
/// token, or the start of a block comment that is never closed.
pub open spec fn skip_trivia(s: Seq<char>, p: int, mode: Trivia) -> Result<int, int>
    decreases s.len() - p,
{
    if p < 0 || p >= s.len() {
        match mode {
            Trivia::Block(b) => Err(b as int),
            _ => Ok(p),
        }
    } else {
        match mode {
            Trivia::Code => {
                if is_blank(s[p]) {
                    skip_trivia(s, p + 1, Trivia::Code)
                } else if s[p] == '#' {
                    skip_trivia(s, p + 1, Trivia::Line)
                } else if s[p] == '/' && p + 1 < s.len() && s[p + 1] == '/' {
                    skip_trivia(s, p + 2, Trivia::Line)
                } else if s[p] == '/' && p + 1 < s.len() && s[p + 1] == '*' {
                    skip_trivia(s, p + 2, Trivia::Block(p as usize))
                } else {
                    Ok(p)
                }
            },
            Trivia::Line => {
                if s[p] == '\n' {
                    skip_trivia(s, p + 1, Trivia::Code)
                } else {
                    skip_trivia(s, p + 1, Trivia::Line)
                }
            },
            Trivia::Block(b) => {
                if s[p] == '*' && p + 1 < s.len() && s[p + 1] == '/' {
                    skip_trivia(s, p + 2, Trivia::Code)
                } else {
                    skip_trivia(s, p + 1, Trivia::Block(b))
                }
            },
        }
    }
}

/// End of a quoted string whose content starts at `first`, scanning from `j`: the position after
/// the last `"` that can close it. A `"` after a backslash may close the string or stand in it.
pub open spec fn quote_end(s: Seq<char>, j: int, first: int, last: Option<int>) -> Option<int>
    decreases s.len() - j,
{
    if j < 0 || j >= s.len() {
        last
    } else if s[j] == '"' {
        if j > first && s[j - 1] == '\\' {
            quote_end(s, j + 1, first, Some(j + 1))
        } else {
            Some(j + 1)
        }
    } else {
        quote_end(s, j + 1, first, last)
    }
}

/// Whether a numeric literal starts at `q`.
pub open spec fn starts_number(s: Seq<char>, q: int) -> bool {
    0 <= q < s.len() && (is_digit(s[q]) || (s[q] == '-' && q + 1 < s.len() && is_digit(s[q + 1])))
}

/// Whether a hexadecimal literal starts at `q`.
pub open spec fn starts_hex(s: Seq<char>, q: int) -> bool {
    0 <= q && q + 2 < s.len() && s[q] == '0' && s[q + 1] == 'x' && is_hex_digit(s[q + 2])
}

/// End of the numeric literal that starts at `q`.
pub open spec fn number_end(s: Seq<char>, q: int) -> int {
    if starts_hex(s, q) {
        scan(s, q + 3, Class::HexOrUnderscore)
    } else if s[q] == '-' {
        scan(s, q + 2, Class::DigitOrUnderscore)
    } else {
        scan(s, q + 1, Class::DigitOrUnderscore)
    }
}

/// The value of the numeric literal from `q` to `e`, whether or not it fits in `i64`.
pub open spec fn number_value(s: Seq<char>, q: int, e: int) -> int {
    if starts_hex(s, q) {
        digits_value(s.subrange(q + 2, e), 16)
    } else if s[q] == '-' {
        -digits_value(s.subrange(q + 1, e), 10)
    } else {
        digits_value(s.subrange(q, e), 10)
    }
}

pub open spec fn fits_i64(v: int) -> bool {
    i64::MIN <= v <= i64::MAX
}

/// The keyword that a word spells, if any.
pub open spec fn cpp_keyword(w: Seq<char>) -> Option<Token> {
    if w == "MACRO_CONFIG_INT"@ {
        Some(Token::MacroConfigInt)
    } else if w == "MACRO_CONFIG_STR"@ {
        Some(Token::MacroConfigStr)
    } else if w == "MACRO_CONFIG_COL"@ {
        Some(Token::MacroConfigColor)
    } else if w == "CFGFLAG_SAVE"@ {
        Some(Token::FlagSave)
    } else if w == "CFGFLAG_CLIENT"@ {
        Some(Token::FlagClient)
    } else if w == "CFGFLAG_SERVER"@ {
        Some(Token::FlagServer)
    } else if w == "CFGFLAG_INSENSITIVE"@ {
        Some(Token::FlagInsensitive)
    } else if w == "CFGFLAG_NONTEEHISTORIC"@ {
        Some(Token::FlagNonTeehistoric)
    } else if w == "CFGFLAG_MASTER"@ {
        Some(Token::FlagMaster)
    } else if w == "CFGFLAG_ECON"@ {
        Some(Token::FlagEcon)
    } else if w == "CFGFLAG_GAME"@ {
        Some(Token::FlagGame)
    } else if w == "CFGFLAG_COLALPHA"@ {
        Some(Token::FlagColAlpha)
    } else if w == "CFGFLAG_COLLIGHT"@ {
        Some(Token::FlagColLight)
    } else if w == "MAX_CLIENTS"@ {
        Some(Token::MaxClients)
    } else if w == "SERVERINFO_LEVEL_MIN"@ {
        Some(Token::ServerInfoLevelMin)
    } else if w == "SERVERINFO_LEVEL_MAX"@ {
        Some(Token::ServerInfoLevelMax)
    } else {
        None
    }
}

/// The punctuation token that a character is, if any.
pub open spec fn cpp_punct(c: char) -> Option<Token> {
    if c == '(' {
        Some(Token::LParen)
    } else if c == ')' {
        Some(Token::RParen)
    } else if c == ',' {
        Some(Token::Comma)
    } else if c == '|' {
        Some(Token::Pipe)
    } else if c == ';' {
        Some(Token::Semicolon)
    } else {
        None
    }
}

/// The header lexer's step at `p`, over characters: `Found` and `Fail` carry character
/// positions here.
pub open spec fn cpp_step(s: Seq<char>, p: int) -> Step {
    match skip_trivia(s, p, Trivia::Code) {
        Err(b) => Step::Fail {
            reason: LexingError::Other,
            start: b as usize,
            end: (b + 2) as usize,
            resume: s.len() as usize,
        },
        Ok(q) => {
            if q >= s.len() {
                Step::Done
            } else if s[q] == '"' {
                match quote_end(s, q + 1, q + 1, None) {
                    Some(e) => Step::Found { start: q as usize, end: e as usize },
                    None => Step::Fail {
                        reason: LexingError::Other,
                        start: q as usize,
                        end: (q + 1) as usize,
                        resume: (q + 1) as usize,
                    },
                }
            } else if starts_number(s, q) {
                let e = number_end(s, q);
                if fits_i64(number_value(s, q, e)) {
                    Step::Found { start: q as usize, end: e as usize }
                } else {
                    Step::Fail {
                        reason: LexingError::NumberParseError,
                        start: q as usize,
                        end: e as usize,
                        resume: e as usize,
                    }
                }
            } else if is_ident_start(s[q]) {
                let e = scan(s, q + 1, Class::IdentChar);
                if cpp_keyword(s.subrange(q, e)) is Some || e >= q + 2 {
                    Step::Found { start: q as usize, end: e as usize }
                } else {
                    Step::Fail {
                        reason: LexingError::Other,
                        start: q as usize,
                        end: (q + 1) as usize,
                        resume: (q + 1) as usize,
                    }
                }
            } else if cpp_punct(s[q]) is Some {
                Step::Found { start: q as usize, end: (q + 1) as usize }
            } else {
                Step::Fail {
                    reason: LexingError::Other,
                    start: q as usize,
                    end: (q + 1) as usize,
                    resume: (q + 1) as usize,
                }
            }
        },
    }
}

/// The token that the characters from `q` to `e` stand for, where `cpp_step` found one.
pub open spec fn cpp_token_is(s: Seq<char>, q: int, e: int, t: Token) -> bool {
    if s[q] == '"' {
        t is StringLiteral && t->StringLiteral_0@ == s.subrange(q + 1, e - 1)
    } else if starts_number(s, q) {
        t is Integer && t->Integer_0 == number_value(s, q, e)
    } else if is_ident_start(s[q]) {
        match cpp_keyword(s.subrange(q, e)) {
            Some(k) => t == k,
            None => t is Identifier && t->Identifier_0@ == s.subrange(q, e),
        }
    } else {
        cpp_punct(s[q]) == Some(t)
    }
}

} // verus!

verus! {

pub fn skip_trivia_exec(chars: &Vec<char>, p: usize) -> (r: Result<usize, usize>)
    requires
        p <= chars@.len(),
    ensures
        match r {
            Ok(q) => skip_trivia(chars@, p as int, Trivia::Code) == Ok::<int, int>(q as int) && p <= q
                <= chars@.len(),
            Err(b) => skip_trivia(chars@, p as int, Trivia::Code) == Err::<int, int>(b as int) && p
                <= b && b + 2 <= chars@.len(),
        },
{
    let n = chars.len();
    let mut i = p;
    let mut mode = Trivia::Code;
    loop
        invariant
            p <= i <= n,
            n == chars@.len(),
            skip_trivia(chars@, p as int, Trivia::Code) == skip_trivia(chars@, i as int, mode),
            match mode {
                Trivia::Block(b) => p <= b && b + 2 <= i,
                _ => true,
            },
        decreases n - i,
    {
        if i >= n {
            return match mode {
                Trivia::Block(b) => Err(b),
                _ => Ok(i),
            };
        }
        let c = chars[i];
        match mode {
            Trivia::Code => {
                if c == ' ' || c == '\t' || c == '\n' || c == '\x0c' {
                    i = i + 1;
                } else if c == '#' {
                    i = i + 1;
                    mode = Trivia::Line;
                } else if c == '/' && i + 1 < n && chars[i + 1] == '/' {
                    i = i + 2;
                    mode = Trivia::Line;
                } else if c == '/' && i + 1 < n && chars[i + 1] == '*' {
                    mode = Trivia::Block(i);
                    i = i + 2;
                } else {
                    return Ok(i);
                }
            },
            Trivia::Line => {
                if c == '\n' {
                    mode = Trivia::Code;
                }
                i = i + 1;
            },
            Trivia::Block(b) => {
                if c == '*' && i + 1 < n && chars[i + 1] == '/' {
                    i = i + 2;
                    mode = Trivia::Code;
                } else {
                    i = i + 1;
                }
            },
        }
    }
}

pub fn quote_end_exec(chars: &Vec<char>, q: usize) -> (r: Option<usize>)
    requires
        q < chars@.len(),
    ensures
        match r {
            Some(e) => quote_end(chars@, q + 1, q + 1, None) == Some(e as int) && q + 2 <= e
                <= chars@.len(),
            None => quote_end(chars@, q + 1, q + 1, None) is None,
        },
{
    let n = chars.len();
    let first = q + 1;
    let mut j = first;
    let mut last: Option<usize> = None;
    while j < n
        invariant
            first == q + 1,
            first <= j <= n,
            n == chars@.len(),
            quote_end(chars@, first as int, first as int, None) == quote_end(
                chars@,
                j as int,
                first as int,
                match last {
                    Some(l) => Some(l as int),
                    None => None,
                },
            ),
            match last {
                Some(l) => first + 1 <= l <= j,
                None => true,
            },
        decreases n - j,
    {
        if chars[j] == '"' {
            if j > first && chars[j - 1] == '\\' {
                last = Some(j + 1);
            } else {
                return Some(j + 1);
            }
        }
        j = j + 1;
    }
    last
}

/// The keyword that the characters from `q` to `e` spell, if any.
fn cpp_keyword_exec(chars: &Vec<char>, q: usize, e: usize) -> (r: Option<Token>)
    requires
        q <= e <= chars@.len(),
    ensures
        r == cpp_keyword(chars@.subrange(q as int, e as int)),
{
    if spells(chars, q, e, "MACRO_CONFIG_INT") {
        Some(Token::MacroConfigInt)
    } else if spells(chars, q, e, "MACRO_CONFIG_STR") {
        Some(Token::MacroConfigStr)
    } else if spells(chars, q, e, "MACRO_CONFIG_COL") {
        Some(Token::MacroConfigColor)
    } else if spells(chars, q, e, "CFGFLAG_SAVE") {
        Some(Token::FlagSave)
    } else if spells(chars, q, e, "CFGFLAG_CLIENT") {
        Some(Token::FlagClient)
    } else if spells(chars, q, e, "CFGFLAG_SERVER") {
        Some(Token::FlagServer)
    } else if spells(chars, q, e, "CFGFLAG_INSENSITIVE") {
        Some(Token::FlagInsensitive)
    } else if spells(chars, q, e, "CFGFLAG_NONTEEHISTORIC") {
        Some(Token::FlagNonTeehistoric)
    } else if spells(chars, q, e, "CFGFLAG_MASTER") {
        Some(Token::FlagMaster)
    } else if spells(chars, q, e, "CFGFLAG_ECON") {
        Some(Token::FlagEcon)
    } else if spells(chars, q, e, "CFGFLAG_GAME") {
        Some(Token::FlagGame)
    } else if spells(chars, q, e, "CFGFLAG_COLALPHA") {
        Some(Token::FlagColAlpha)
    } else if spells(chars, q, e, "CFGFLAG_COLLIGHT") {
        Some(Token::FlagColLight)
    } else if spells(chars, q, e, "MAX_CLIENTS") {
        Some(Token::MaxClients)
    } else if spells(chars, q, e, "SERVERINFO_LEVEL_MIN") {
        Some(Token::ServerInfoLevelMin)
    } else if spells(chars, q, e, "SERVERINFO_LEVEL_MAX") {
        Some(Token::ServerInfoLevelMax)
    } else {
        None
    }
}

} // verus!

verus! {

/// Reads the numeric literal that starts at `q`: its end, and its value if that fits in `i64`.
pub fn lex_number(chars: &Vec<char>, q: usize) -> (r: (usize, Option<i64>))
    requires
        starts_number(chars@, q as int),
    ensures
        r.0 == number_end(chars@, q as int),
        q < r.0 <= chars@.len(),
        r.1 == (if fits_i64(number_value(chars@, q as int, r.0 as int)) {
            Some(number_value(chars@, q as int, r.0 as int) as i64)
        } else {
            None::<i64>
        }),
{
    let n = chars.len();
    if n - q > 2 && chars[q] == '0' && chars[q + 1] == 'x' && class_has(Class::HexOrUnderscore, chars[q + 2]) && chars[q + 2] != '_' {
        let e = scan_run(chars, q + 3, Class::HexOrUnderscore);
        let v = digits_value_capped(chars, q + 2, e, 16);
        if v <= 0x7fff_ffff_ffff_ffff {
            (e, Some(v as i64))
        } else {
            (e, None)
        }
    } else if chars[q] == '-' {
        let e = scan_run(chars, q + 2, Class::DigitOrUnderscore);
        let v = digits_value_capped(chars, q + 1, e, 10);
        if v == 0x8000_0000_0000_0000 {
            (e, Some(i64::MIN))
        } else if v < 0x8000_0000_0000_0000 {
            (e, Some(-(v as i64)))
        } else {
            (e, None)
        }
    } else {
        let e = scan_run(chars, q + 1, Class::DigitOrUnderscore);
        let v = digits_value_capped(chars, q, e, 10);
        if v <= 0x7fff_ffff_ffff_ffff {
            (e, Some(v as i64))
        } else {
            (e, None)
        }
    }
}

} // verus!

verus! {

/// One step of the header lexer from `p`, over characters, with the token where one is found.
fn cpp_step_exec(chars: &Vec<char>, p: usize) -> (r: (Step, Option<Token>))
    requires
        p <= chars@.len(),
    ensures
        r.0 == cpp_step(chars@, p as int),
        match r.0 {
            Step::Found { start, end } => p <= start < end <= chars@.len() && r.1 is Some
                && cpp_token_is(chars@, start as int, end as int, r.1->0),
            Step::Fail { start, end, resume, .. } => p <= start < end <= chars@.len() && end
                <= resume <= chars@.len() && p < resume,
            Step::Done => true,
        },
{
    let n = chars.len();
    match skip_trivia_exec(chars, p) {
        Err(b) => (Step::Fail { reason: LexingError::Other, start: b, end: b + 2, resume: n }, None),
        Ok(q) => {
            if q >= n {
                return (Step::Done, None);
            }
            let c = chars[q];
            if c == '"' {
                match quote_end_exec(chars, q) {
                    Some(e) => {
                        let text = string_of(chars, q + 1, e - 1);
                        (Step::Found { start: q, end: e }, Some(Token::StringLiteral(text)))
                    },
                    None => (
                        Step::Fail { reason: LexingError::Other, start: q, end: q + 1, resume: q + 1 },
                        None,
                    ),
                }
            } else if ('0' <= c && c <= '9') || (c == '-' && q + 1 < n && '0' <= chars[q + 1]
                && chars[q + 1] <= '9') {
                let (e, v) = lex_number(chars, q);
                match v {
                    Some(v) => (Step::Found { start: q, end: e }, Some(Token::Integer(v))),
                    None => (
                        Step::Fail {
                            reason: LexingError::NumberParseError,
                            start: q,
                            end: e,
                            resume: e,
                        },
                        None,
                    ),
                }
            } else if c == '_' || ('a' <= c && c <= 'z') || ('A' <= c && c <= 'Z') {
                let e = scan_run(chars, q + 1, Class::IdentChar);
                match cpp_keyword_exec(chars, q, e) {
                    Some(k) => (Step::Found { start: q, end: e }, Some(k)),
                    None => {
                        if e - q >= 2 {
                            let text = string_of(chars, q, e);
                            (Step::Found { start: q, end: e }, Some(Token::Identifier(text)))
                        } else {
                            (
                                Step::Fail {
                                    reason: LexingError::Other,
                                    start: q,
                                    end: q + 1,
                                    resume: q + 1,
                                },
                                None,
                            )
                        }
                    },
                }
            } else if c == '(' {
                (Step::Found { start: q, end: q + 1 }, Some(Token::LParen))
            } else if c == ')' {
                (Step::Found { start: q, end: q + 1 }, Some(Token::RParen))
            } else if c == ',' {
                (Step::Found { start: q, end: q + 1 }, Some(Token::Comma))
            } else if c == '|' {
                (Step::Found { start: q, end: q + 1 }, Some(Token::Pipe))
            } else if c == ';' {
                (Step::Found { start: q, end: q + 1 }, Some(Token::Semicolon))
            } else {
                (Step::Fail { reason: LexingError::Other, start: q, end: q + 1, resume: q + 1 }, None)
            }
        },
    }
}

} // verus!

verus! {

/// `offsets` gives the byte offset of each character of `chars`, and of its end.
pub open spec fn offsets_ok(chars: Seq<char>, offsets: Seq<usize>) -> bool {
    &&& offsets.len() == chars.len() + 1
    &&& forall|i: int| 0 <= i <= chars.len() ==> offsets[i] == byte_offset(chars, i)
}

/// A token with the byte offsets where it starts and ends.
pub type Spanned<Tok> = (usize, Tok, usize);

/// `tok` is the header token found between characters `start` and `end`.
pub open spec fn cpp_spanned_is(
    s: Seq<char>,
    off: Seq<usize>,
    start: int,
    end: int,
    tok: Spanned<Token>,
) -> bool {
    &&& tok.0 == off[start]
    &&& tok.2 == off[end]
    &&& cpp_token_is(s, start, end, tok.1)
}

/// Reading `toks` as the header lexer's successive tokens from `p`: the position after the last
/// one, or `None` if they are not what the lexer finds.
pub open spec fn cpp_run(s: Seq<char>, off: Seq<usize>, p: int, toks: Seq<Spanned<Token>>) -> Option<
    int,
>
    decreases toks.len(),
{
    if toks.len() == 0 {
        Some(p)
    } else {
        match cpp_step(s, p) {
            Step::Found { start, end } => if cpp_spanned_is(s, off, start as int, end as int, toks[0]) {
                cpp_run(s, off, end as int, toks.drop_first())
            } else {
                None
            },
            _ => None,
        }
    }
}

/// `toks` are all the header tokens from `p` on, and `tail` the lexical error that stops them,
/// if one does.
pub open spec fn cpp_lexes(
    s: Seq<char>,
    off: Seq<usize>,
    p: int,
    toks: Seq<Spanned<Token>>,
    tail: Option<LexicalError>,
) -> bool {
    match cpp_run(s, off, p, toks) {
        None => false,
        Some(q) => match cpp_step(s, q) {
            Step::Done => tail is None,
            Step::Found { .. } => false,
            Step::Fail { reason, start, end, .. } => tail == Some(
                LexicalError::InvalidToken(reason, Span { start: off[start as int], end: off[end as int] }),
            ),
        },
    }
}

proof fn lemma_cpp_run_push(
    s: Seq<char>,
    off: Seq<usize>,
    p: int,
    toks: Seq<Spanned<Token>>,
    t: Spanned<Token>,
    q: int,
    start: usize,
    end: usize,
)
    requires
        cpp_run(s, off, p, toks) == Some(q),
        cpp_step(s, q) == (Step::Found { start, end }),
        cpp_spanned_is(s, off, start as int, end as int, t),
    ensures
        cpp_run(s, off, p, toks.push(t)) == Some(end as int),
    decreases toks.len(),
{
    if toks.len() == 0 {
        assert(toks.push(t).drop_first() =~= Seq::<Spanned<Token>>::empty());
        assert(toks.push(t)[0] == t);
        assert(cpp_run(s, off, end as int, Seq::<Spanned<Token>>::empty()) == Some(end as int));
    } else {
        assert(toks.push(t)[0] == toks[0]);
        assert(toks.push(t).drop_first() =~= toks.drop_first().push(t));
        let e = cpp_step(s, p)->Found_end as int;
        lemma_cpp_run_push(s, off, e, toks.drop_first(), t, q, start, end);
    }
}

/// The header lexer: hands out the tokens of a text one at a time.
pub struct VarLexer {
    /// The characters of the text.
    pub chars: Vec<char>,
    /// The byte offset of each character, and of the end.
    pub offsets: Vec<usize>,
    /// The character position where the next token is looked for.
    pub pos: usize,
}

impl VarLexer {
    pub open spec fn wf(&self) -> bool {
        &&& offsets_ok(self.chars@, self.offsets@)
        &&& self.pos <= self.chars@.len()
    }

    pub fn new(input: &str) -> (r: VarLexer)
        ensures
            r.wf(),
            r.chars@ == input@,
            r.pos == 0,
    {
        let chars = chars_of(input);
        let offsets = byte_offsets(input, &chars);
        VarLexer { chars, offsets, pos: 0 }
    }

    /// The next token, a lexical error, or `None` at the end of the text.
    pub fn next(&mut self) -> (r: Option<Result<Spanned<Token>, LexicalError>>)
        requires
            old(self).wf(),
        ensures
            final(self).wf(),
            final(self).chars == old(self).chars,
            final(self).offsets == old(self).offsets,
            match cpp_step(old(self).chars@, old(self).pos as int) {
                Step::Done => r is None && final(self).pos == old(self).pos,
                Step::Found { start, end } => r is Some && r->0 is Ok && cpp_spanned_is(
                    old(self).chars@,
                    old(self).offsets@,
                    start as int,
                    end as int,
                    r->0->Ok_0,
                ) && final(self).pos == end,
                Step::Fail { reason, start, end, resume } => r == Some(
                    Err::<Spanned<Token>, LexicalError>(
                        LexicalError::InvalidToken(
                            reason,
                            Span { start: old(self).offsets@[start as int], end: old(self).offsets@[end as int] },
                        ),
                    ),
                ) && final(self).pos == resume,
            },
    {
        let (step, tok) = cpp_step_exec(&self.chars, self.pos);
        match step {
            Step::Done => None,
            Step::Found { start, end } => {
                self.pos = end;
                match tok {
                    Some(t) => Some(Ok((self.offsets[start], t, self.offsets[end]))),
                    None => None,
                }
            },
            Step::Fail { reason, start, end, resume } => {
                self.pos = resume;
                Some(Err(LexicalError::InvalidToken(reason, Span { start: self.offsets[start], end: self.offsets[end] })))
            },
        }
    }

    /// All the tokens from the current position on, and the lexical error that stops them, if
    /// one does.
    pub fn tokenize(&mut self) -> (r: (Vec<Spanned<Token>>, Option<LexicalError>))
        requires
            old(self).wf(),
        ensures
            final(self).wf(),
            final(self).chars@ == old(self).chars@,
            final(self).offsets@ == old(self).offsets@,
            cpp_lexes(old(self).chars@, old(self).offsets@, old(self).pos as int, r.0@, r.1),
    {
        let ghost s = self.chars@;
        let ghost off = self.offsets@;
        let ghost first_pos = self.pos as int;
        let mut toks: Vec<Spanned<Token>> = Vec::new();
        loop
            invariant
                self.wf(),
                s == old(self).chars@,
                off == old(self).offsets@,
                first_pos == old(self).pos,
                self.chars@ == s,
                self.offsets@ == off,
                cpp_run(s, off, first_pos, toks@) == Some(self.pos as int),
            decreases self.chars@.len() - self.pos,
        {
            let ghost q = self.pos as int;
            let (step, tok) = cpp_step_exec(&self.chars, self.pos);
            match step {
                Step::Done => {
                    return (toks, None);
                },
                Step::Found { start, end } => {
                    match tok {
                        Some(t) => {
                            let item = (self.offsets[start], t, self.offsets[end]);
                            proof {
                                lemma_cpp_run_push(s, off, first_pos, toks@, item, q, start, end);
                            }
                            toks.push(item);
                            self.pos = end;
                        },
                        None => {
                            return (toks, None);
                        },
                    }
                },
                Step::Fail { reason, start, end, resume } => {
                    self.pos = resume;
                    return (
                        toks,
                        Some(LexicalError::InvalidToken(reason, Span { start: self.offsets[start], end: self.offsets[end] })),
                    );
                },
            }
        }
    }
}

} // verus!

verus! {

/// What the trivia skipper in `mode` at `p` knows about an unclosed block comment: when it
/// reports one, the report points at a `/*` that no later `*/` closes.
proof fn lemma_skip_unclosed(s: Seq<char>, p: int, mode: Trivia)
    requires
        0 <= p,
        s.len() <= usize::MAX,
        match mode {
            Trivia::Block(b) => b + 2 <= p && s[b as int] == '/' && s[b + 1] == '*' && forall|j: int|
                b + 2 <= j < p - 1 ==> !(s[j] == '*' && #[trigger] s[j + 1] == '/'),
            _ => true,
        },
        mode matches Trivia::Block(b) ==> p <= s.len() && (p >= 1 && p - 1 >= b + 2 ==> !(s[p - 1]
            == '*' && p < s.len() && s[p] == '/')),
    ensures
        skip_trivia(s, p, mode) matches Err(b) ==> 0 <= b && b + 2 <= s.len() && s[b] == '/' && s[b
            + 1] == '*' && forall|j: int| b + 2 <= j < s.len() - 1 ==> !(s[j] == '*' && #[trigger] s[j
            + 1] == '/'),
    decreases s.len() - p,
{
    if p < s.len() {
        match mode {
            Trivia::Code => {
                if is_blank(s[p]) {
                    lemma_skip_unclosed(s, p + 1, Trivia::Code);
                } else if s[p] == '#' {
                    lemma_skip_unclosed(s, p + 1, Trivia::Line);
                } else if s[p] == '/' && p + 1 < s.len() && s[p + 1] == '/' {
                    lemma_skip_unclosed(s, p + 2, Trivia::Line);
                } else if s[p] == '/' && p + 1 < s.len() && s[p + 1] == '*' {
                    lemma_skip_unclosed(s, p + 2, Trivia::Block(p as usize));
                }
            },
            Trivia::Line => {
                if s[p] == '\n' {
                    lemma_skip_unclosed(s, p + 1, Trivia::Code);
                } else {
                    lemma_skip_unclosed(s, p + 1, Trivia::Line);
                }
            },
            Trivia::Block(b) => {
                if s[p] == '*' && p + 1 < s.len() && s[p + 1] == '/' {
                    lemma_skip_unclosed(s, p + 2, Trivia::Code);
                } else {
                    lemma_skip_unclosed(s, p + 1, Trivia::Block(b));
                }
            },
        }
    }
}

/// Where the header lexer fails on a block comment that is never closed, the error is located
/// at the comment's opening `/*`, and lexing stops there.
pub proof fn lemma_unclosed_comment_fails_at_opening(s: Seq<char>, p: int)
    requires
        0 <= p <= s.len() <= usize::MAX,
    ensures
        skip_trivia(s, p, Trivia::Code) matches Err(b) ==> ({
            &&& s[b] == '/' && s[b + 1] == '*'
            &&& forall|j: int| b + 2 <= j < s.len() - 1 ==> !(s[j] == '*' && #[trigger] s[j + 1] == '/')
            &&& cpp_step(s, p) == (Step::Fail {
                reason: LexingError::Other,
                start: b as usize,
                end: (b + 2) as usize,
                resume: s.len() as usize,
            })
        }),
{
    lemma_skip_unclosed(s, p, Trivia::Code);
}

} // verus!

verus! {

proof fn lemma_block_never_closed(s: Seq<char>, q: int, b: usize)
    requires
        0 <= q,
        s.len() <= usize::MAX,
        forall|j: int| q <= j < s.len() - 1 ==> !(s[j] == '*' && #[trigger] s[j + 1] == '/'),
    ensures
        skip_trivia(s, q, Trivia::Block(b)) == Err::<int, int>(b as int),
    decreases s.len() - q,
{
    if q < s.len() {
        lemma_block_never_closed(s, q + 1, b);
    }
}

proof fn lemma_blanks_then_block(s: Seq<char>, q: int, p: int)
    requires
        0 <= q <= p,
        p + 1 < s.len() <= usize::MAX,
        s[p] == '/' && s[p + 1] == '*',
        forall|k: int| q <= k < p ==> is_blank(#[trigger] s[k]),
        forall|j: int| p + 2 <= j < s.len() - 1 ==> !(s[j] == '*' && #[trigger] s[j + 1] == '/'),
    ensures
        skip_trivia(s, q, Trivia::Code) == Err::<int, int>(p),
    decreases p - q,
{
    if q < p {
        lemma_blanks_then_block(s, q + 1, p);
    } else {
        lemma_block_never_closed(s, p + 2, p as usize);
    }
}

/// A `/*` that no later `*/` closes makes the header lexer fail there, with the span of the
/// `/*`, instead of reading on to the end of the text: from any position `q` before it with only
/// whitespace in between, the next step is that failure.
pub proof fn lemma_unclosed_comment_at(s: Seq<char>, q: int, p: int)
    requires
        0 <= q <= p,
        p + 1 < s.len() <= usize::MAX,
        s[p] == '/' && s[p + 1] == '*',
        forall|k: int| q <= k < p ==> is_blank(#[trigger] s[k]),
        forall|j: int| p + 2 <= j < s.len() - 1 ==> !(s[j] == '*' && #[trigger] s[j + 1] == '/'),
    ensures
        cpp_step(s, q) == (Step::Fail {
            reason: LexingError::Other,
            start: p as usize,
            end: (p + 2) as usize,
            resume: s.len() as usize,
        }),
{
    lemma_blanks_then_block(s, q, p);
}

} // verus!
