use vstd::prelude::*;
use crate::tokens_cpp::{LexicalError, Spanned};

verus! {

/// What the grammar was looking for where it failed.
#[derive(Clone, Copy, Debug, PartialEq, Eq, Structural)]
pub enum Expect {
    /// One of the three macro keywords.
    Macro,
    LParen,
    RParen,
    Comma,
    /// An identifier or a quoted string that names the entry.
    Name,
    /// An integer literal.
    Integer,
    /// An integer literal or an engine constant.
    Bound,
    /// A quoted string.
    Quoted,
    /// A flag keyword.
    Flag,
    /// `|` or `,` after a flag.
    PipeOrComma,
    /// An identifier that names a config line.
    LineName,
}

/// Why a parse failed. Every variant carries byte offsets into the source text.
#[derive(Debug)]
pub enum ParseError<Tok> {
    /// A token that no rule accepts.
    InvalidTokenAt { location: usize },
    /// The input ended where one of `expected` was needed.
    UnexpectedEndOfInput { location: usize, expected: Vec<String> },
    /// `token` stands where one of `expected` was needed.
    UnexpectedToken { token: Spanned<Tok>, expected: Vec<String> },
    /// A token after a complete parse.
    ExtraTokenAfterComplete { token: Spanned<Tok> },
    /// The lexer failed.
    Lexical(LexicalError),
    /// An entry whose parts contradict each other, between two byte offsets.
    InvalidEntry { start: usize, end: usize },
}

/// The spellings of what `e` stands for, as a parse error lists them.
pub open spec fn expected_names(e: Expect) -> Seq<Seq<char>> {
    match e {
        Expect::Macro => seq!["MACRO_CONFIG_INT"@, "MACRO_CONFIG_STR"@, "MACRO_CONFIG_COL"@],
        Expect::LParen => seq!["("@],
        Expect::RParen => seq![")"@],
        Expect::Comma => seq![","@],
        Expect::Name => seq!["identifier"@, "string"@],
        Expect::Integer => seq!["integer"@],
        Expect::Bound => seq![
            "integer"@,
            "MAX_CLIENTS"@,
            "SERVERINFO_LEVEL_MIN"@,
            "SERVERINFO_LEVEL_MAX"@,
        ],
        Expect::Quoted => seq!["string"@],
        Expect::Flag => seq!["flag"@],
        Expect::PipeOrComma => seq!["|"@, ","@],
        Expect::LineName => seq!["identifier"@],
    }
}

/// `v` holds the spellings `names`, in order.
pub open spec fn spells_all(v: Seq<String>, names: Seq<Seq<char>>) -> bool {
    &&& v.len() == names.len()
    &&& forall|i: int| 0 <= i < v.len() ==> (#[trigger] v[i])@ == names[i]
}

/// The spellings of what `e` stands for.
pub fn expected_of(e: Expect) -> (r: Vec<String>)
    ensures
        spells_all(r@, expected_names(e)),
        r@.len() > 0,
{
    let words: Vec<&str> = match e {
        Expect::Macro => vec!["MACRO_CONFIG_INT", "MACRO_CONFIG_STR", "MACRO_CONFIG_COL"],
        Expect::LParen => vec!["("],
        Expect::RParen => vec![")"],
        Expect::Comma => vec![","],
        Expect::Name => vec!["identifier", "string"],
        Expect::Integer => vec!["integer"],
        Expect::Bound => vec!["integer", "MAX_CLIENTS", "SERVERINFO_LEVEL_MIN", "SERVERINFO_LEVEL_MAX"],
        Expect::Quoted => vec!["string"],
        Expect::Flag => vec!["flag"],
        Expect::PipeOrComma => vec!["|", ","],
        Expect::LineName => vec!["identifier"],
    };
    assert(words@.len() == expected_names(e).len());
    assert(forall|i: int| 0 <= i < words@.len() ==> (#[trigger] words@[i])@ == expected_names(e)[i]);
    let mut r: Vec<String> = Vec::new();
    let mut i: usize = 0;
    while i < words.len()
        invariant
            i <= words@.len(),
            words@.len() == expected_names(e).len(),
            forall|k: int| 0 <= k < words@.len() ==> (#[trigger] words@[k])@ == expected_names(e)[k],
            spells_all(r@, expected_names(e).take(i as int)),
        decreases words@.len() - i,
    {
        r.push(words[i].to_owned());
        i = i + 1;
    }
    assert(expected_names(e).take(i as int) =~= expected_names(e));
    r
}

} // verus!
