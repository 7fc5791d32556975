use vstd::prelude::*;

pub mod entries;
pub mod error;
pub mod flags;
pub mod grammar_config;
pub mod grammar_cpp;
pub mod names;
pub mod scan;
pub mod text;
pub mod tokens_cfg;
pub mod tokens_cpp;

pub use entries::{ConfigEntry, EntryType, IntBound};
pub use error::{Expect, ParseError};
pub use flags::{CFGFlags, Flag};
pub use names::{map_with_names, NameMap};
pub use tokens_cfg::{ConfigLexer, ConfigLine, ConfigToken, Value as ConfigValue};
pub use tokens_cpp::{LexicalError, LexingError, Span, Token, VarLexer};

use entries::entry_ok;
use grammar_config::{cfg_lines, cfg_report, cfg_reports, lines_are, parse_lines};
use grammar_cpp::{cpp_entries, parse_entries, report, reports};
use tokens_cfg::cfg_lexes;
use text::{byte_len, byte_offset};
use tokens_cpp::{cpp_lexes, Spanned};

verus! {

/// The byte offset of each character of `s`, and of its end.
pub open spec fn offsets_of(s: Seq<char>) -> Seq<usize> {
    Seq::new((s.len() + 1) as nat, |i: int| byte_offset(s, i) as usize)
}

/// What the header grammar makes of the tokens `toks` (followed by the lexical error `tail`,
/// if any) of a text of `eof` bytes: the entries, or the error that reports where it failed.
pub open spec fn header_outcome(
    toks: Seq<Spanned<Token>>,
    tail: Option<LexicalError>,
    eof: usize,
    r: Result<Vec<ConfigEntry>, ParseError<Token>>,
) -> bool {
    match cpp_entries(toks, 0, tail is Some) {
        Ok(es) => r is Ok && r->Ok_0@ == es,
        Err(f) => r is Err && reports(toks, tail, eof, f, r->Err_0),
    }
}

/// Parses the given header file containing the MACRO_CONFIG_XXX options.
pub fn parse_config_variables(header_source: &str) -> (r: Result<
    Vec<ConfigEntry>,
    ParseError<Token>,
>)
    ensures
        exists|toks: Seq<Spanned<Token>>, tail: Option<LexicalError>|
            cpp_lexes(header_source@, offsets_of(header_source@), 0, toks, tail) && header_outcome(
                toks,
                tail,
                byte_len(header_source@) as usize,
                r,
            ),
        (r matches Ok(es) ==> forall|k: int| 0 <= k < es@.len() ==> entry_ok(#[trigger] es@[k])),
{
    let mut lexer = VarLexer::new(header_source);
    let (toks, tail) = lexer.tokenize();
    let eof = lexer.offsets[lexer.chars.len()];
    assert(lexer.offsets@ =~= offsets_of(header_source@));
    assert(header_source@.take(header_source@.len() as int) =~= header_source@);
    proof {
        grammar_cpp::lemma_entries_ok(toks@, 0, tail is Some);
    }
    let r = match parse_entries(&toks, tail.is_some()) {
        Ok(v) => Ok(v),
        Err(f) => Err(report(&toks, tail, eof, f)),
    };
    assert(cpp_lexes(header_source@, offsets_of(header_source@), 0, toks@, tail));
    assert(header_outcome(toks@, tail, byte_len(header_source@) as usize, r));
    r
}

} // verus!

verus! {

/// What the settings grammar makes of the tokens `toks` (followed by the lexical error `tail`,
/// if any) of a text of `eof` bytes: the lines, or the error that reports where it failed.
pub open spec fn settings_outcome(
    toks: Seq<Spanned<ConfigToken>>,
    tail: Option<LexicalError>,
    eof: usize,
    r: Result<Vec<ConfigLine>, ParseError<ConfigToken>>,
) -> bool {
    match cfg_lines(toks, 0, tail is Some) {
        Ok(m) => r is Ok && lines_are(r->Ok_0@, m),
        Err(f) => r is Err && cfg_reports(toks, tail, eof, f, r->Err_0),
    }
}

/// Parses a ddnet / teeworlds config file. Like `settings_ddnet.cfg`
pub fn parse_config(settings_file: &str) -> (r: Result<Vec<ConfigLine>, ParseError<ConfigToken>>)
    ensures
        exists|toks: Seq<Spanned<ConfigToken>>, tail: Option<LexicalError>|
            cfg_lexes(settings_file@, offsets_of(settings_file@), 0, toks, tail) && settings_outcome(
                toks,
                tail,
                byte_len(settings_file@) as usize,
                r,
            ),
{
    let mut lexer = ConfigLexer::new(settings_file);
    let (toks, tail) = lexer.tokenize();
    let eof = lexer.offsets[lexer.chars.len()];
    assert(lexer.offsets@ =~= offsets_of(settings_file@));
    assert(settings_file@.take(settings_file@.len() as int) =~= settings_file@);
    let r = match parse_lines(&toks, tail.is_some()) {
        Ok(v) => Ok(v),
        Err(f) => Err(cfg_report(&toks, tail, eof, f)),
    };
    assert(cfg_lexes(settings_file@, offsets_of(settings_file@), 0, toks@, tail));
    assert(settings_outcome(toks@, tail, byte_len(settings_file@) as usize, r));
    r
}

} // verus!

verus! {

/// An empty header gives an empty list of entries, not an error.
pub proof fn lemma_empty_header(
    toks: Seq<Spanned<Token>>,
    tail: Option<LexicalError>,
    r: Result<Vec<ConfigEntry>, ParseError<Token>>,
)
    requires
        cpp_lexes(Seq::empty(), offsets_of(Seq::empty()), 0, toks, tail),
        header_outcome(toks, tail, 0, r),
    ensures
        r matches Ok(es) && es@.len() == 0,
{
    let s = Seq::<char>::empty();
    assert(tokens_cpp::cpp_step(s, 0) == tokens_cpp::Step::Done);
    assert(toks.len() == 0);
}

/// An empty settings file gives an empty list of lines, not an error.
pub proof fn lemma_empty_settings(
    toks: Seq<Spanned<ConfigToken>>,
    tail: Option<LexicalError>,
    r: Result<Vec<ConfigLine>, ParseError<ConfigToken>>,
)
    requires
        cfg_lexes(Seq::empty(), offsets_of(Seq::empty()), 0, toks, tail),
        settings_outcome(toks, tail, 0, r),
    ensures
        r matches Ok(ls) && ls@.len() == 0,
{
    let s = Seq::<char>::empty();
    assert(tokens_cfg::cfg_step(s, 0) == tokens_cpp::Step::Done);
    assert(toks.len() == 0);
}

} // verus!
