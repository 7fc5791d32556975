use vstd::prelude::*;
use crate::entries::{entry_ok, int_bounds_ok, ConfigEntry, EntryType, IntBound};
use crate::error::{expected_names, expected_of, spells_all, Expect, ParseError};
use crate::flags::{flag_bit, CFGFlags, Flag, ALL_FLAG_BITS};
use crate::text::{byte_len, lemma_byte_len_encode};
use crate::tokens_cpp::{LexicalError, Spanned, Token};

verus! {

/// Where and why the header grammar stopped.
#[derive(Clone, Copy, Debug, PartialEq, Eq, Structural)]
pub enum Failure {
    /// The token at `index` (or the end, when `index` is the number of tokens) is not what
    /// `expect` names.
    At { index: usize, expect: Expect },
    /// The invocation from token `first` to token `last` has contradicting arguments.
    Invalid { first: usize, last: usize },
}

pub open spec fn at(i: int, e: Expect) -> Failure {
    Failure::At { index: i as usize, expect: e }
}

/// The punctuation or keyword `k` at `i`.
pub open spec fn take_punct(t: Seq<Spanned<Token>>, i: int, k: Token, e: Expect) -> Result<usize, Failure> {
    if 0 <= i < t.len() && t[i].1 == k {
        Ok((i + 1) as usize)
    } else {
        Err(at(i, e))
    }
}

/// An identifier or a quoted string at `i`.
pub open spec fn take_name(t: Seq<Spanned<Token>>, i: int) -> Result<String, Failure> {
    if 0 <= i < t.len() {
        match t[i].1 {
            Token::Identifier(s) => Ok(s),
            Token::StringLiteral(s) => Ok(s),
            _ => Err(at(i, Expect::Name)),
        }
    } else {
        Err(at(i, Expect::Name))
    }
}

/// A quoted string at `i`.
pub open spec fn take_quoted(t: Seq<Spanned<Token>>, i: int) -> Result<String, Failure> {
    if 0 <= i < t.len() && t[i].1 is StringLiteral {
        Ok(t[i].1->StringLiteral_0)
    } else {
        Err(at(i, Expect::Quoted))
    }
}

/// An integer literal at `i`.
pub open spec fn take_int(t: Seq<Spanned<Token>>, i: int) -> Result<i64, Failure> {
    if 0 <= i < t.len() && t[i].1 is Integer {
        Ok(t[i].1->Integer_0)
    } else {
        Err(at(i, Expect::Integer))
    }
}

/// An integer literal or an engine constant at `i`.
pub open spec fn take_bound(t: Seq<Spanned<Token>>, i: int) -> Result<IntBound, Failure> {
    if 0 <= i < t.len() {
        match t[i].1 {
            Token::Integer(v) => Ok(IntBound::Literal(v)),
            Token::MaxClients => Ok(IntBound::MaxClients),
            Token::ServerInfoLevelMin => Ok(IntBound::ServerInfoLevelMin),
            Token::ServerInfoLevelMax => Ok(IntBound::ServerInfoLevelMax),
            _ => Err(at(i, Expect::Bound)),
        }
    } else {
        Err(at(i, Expect::Bound))
    }
}

/// The flag that a token names, if any.
pub open spec fn flag_of(t: Token) -> Option<Flag> {
    match t {
        Token::FlagSave => Some(Flag::Save),
        Token::FlagClient => Some(Flag::Client),
        Token::FlagServer => Some(Flag::Server),
        Token::FlagInsensitive => Some(Flag::Insensitive),
        Token::FlagNonTeehistoric => Some(Flag::NonTeehistoric),
        Token::FlagMaster => Some(Flag::Master),
        Token::FlagEcon => Some(Flag::Econ),
        Token::FlagGame => Some(Flag::Game),
        Token::FlagColAlpha => Some(Flag::ColAlpha),
        Token::FlagColLight => Some(Flag::ColLight),
        _ => None,
    }
}

/// Flags joined by `|` from `i`, folded into `acc`: the bits, and the index after the last flag.
pub open spec fn take_flags(t: Seq<Spanned<Token>>, i: int, acc: u16) -> Result<(u16, usize), Failure>
    decreases t.len() - i,
{
    if 0 <= i < t.len() && flag_of(t[i].1) is Some {
        let bits = acc | flag_bit(flag_of(t[i].1)->0);
        if i + 1 < t.len() && t[i + 1].1 == Token::Pipe {
            take_flags(t, i + 2, bits)
        } else {
            Ok((bits, (i + 1) as usize))
        }
    } else {
        Err(at(i, Expect::Flag))
    }
}

/// The end of an invocation from its flags at `i` on: `flags , "description" ) ;?`. Gives the
/// flags, the description, the index of `)`, and the index after the invocation.
pub open spec fn take_tail(t: Seq<Spanned<Token>>, i: int) -> Result<(u16, String, usize, usize), Failure> {
    match take_flags(t, i, 0) {
        Err(f) => Err(f),
        Ok((bits, j)) => match take_punct(t, j as int, Token::Comma, Expect::PipeOrComma) {
            Err(f) => Err(f),
            Ok(k) => match take_quoted(t, k as int) {
                Err(f) => Err(f),
                Ok(desc) => match take_punct(t, k + 1, Token::RParen, Expect::RParen) {
                    Err(f) => Err(f),
                    Ok(m) => {
                        let next = if (m as int) < t.len() && t[m as int].1 == Token::Semicolon {
                            m + 1
                        } else {
                            m as int
                        };
                        Ok((bits, desc, (k + 1) as usize, next as usize))
                    },
                },
            },
        },
    }
}

/// The head of an invocation at `i`: `KEYWORD ( symbol , name ,`. Gives the keyword, the
/// symbol and the name.
pub open spec fn take_head(t: Seq<Spanned<Token>>, i: int) -> Result<(Token, String, String), Failure> {
    if !(0 <= i < t.len() && (t[i].1 == Token::MacroConfigInt || t[i].1 == Token::MacroConfigStr
        || t[i].1 == Token::MacroConfigColor)) {
        Err(at(i, Expect::Macro))
    } else {
        match take_punct(t, i + 1, Token::LParen, Expect::LParen) {
            Err(f) => Err(f),
            Ok(_) => match take_name(t, i + 2) {
                Err(f) => Err(f),
                Ok(symbol) => match take_punct(t, i + 3, Token::Comma, Expect::Comma) {
                    Err(f) => Err(f),
                    Ok(_) => match take_name(t, i + 4) {
                        Err(f) => Err(f),
                        Ok(name) => match take_punct(t, i + 5, Token::Comma, Expect::Comma) {
                            Err(f) => Err(f),
                            Ok(_) => Ok((t[i].1, symbol, name)),
                        },
                    },
                },
            },
        }
    }
}

} // verus!

verus! {

/// The typed arguments of an invocation, between its name and its flags.
#[derive(Clone, Debug)]
pub enum Args {
    Int { default: IntBound, min: IntBound, max: IntBound },
    Str { max_length: i64, default: String },
    Color { default: i64 },
}

/// The typed arguments for keyword `kw` from `i`, followed by a comma: the arguments, and the
/// index where the flags start.
pub open spec fn take_args(t: Seq<Spanned<Token>>, kw: Token, i: int) -> Result<(Args, usize), Failure> {
    if kw == Token::MacroConfigInt {
        match take_bound(t, i) {
            Err(f) => Err(f),
            Ok(default) => match take_punct(t, i + 1, Token::Comma, Expect::Comma) {
                Err(f) => Err(f),
                Ok(_) => match take_bound(t, i + 2) {
                    Err(f) => Err(f),
                    Ok(min) => match take_punct(t, i + 3, Token::Comma, Expect::Comma) {
                        Err(f) => Err(f),
                        Ok(_) => match take_bound(t, i + 4) {
                            Err(f) => Err(f),
                            Ok(max) => match take_punct(t, i + 5, Token::Comma, Expect::Comma) {
                                Err(f) => Err(f),
                                Ok(j) => Ok((Args::Int { default, min, max }, j)),
                            },
                        },
                    },
                },
            },
        }
    } else if kw == Token::MacroConfigStr {
        match take_int(t, i) {
            Err(f) => Err(f),
            Ok(max_length) => match take_punct(t, i + 1, Token::Comma, Expect::Comma) {
                Err(f) => Err(f),
                Ok(_) => match take_quoted(t, i + 2) {
                    Err(f) => Err(f),
                    Ok(default) => match take_punct(t, i + 3, Token::Comma, Expect::Comma) {
                        Err(f) => Err(f),
                        Ok(j) => Ok((Args::Str { max_length, default }, j)),
                    },
                },
            },
        }
    } else {
        match take_int(t, i) {
            Err(f) => Err(f),
            Ok(default) => match take_punct(t, i + 1, Token::Comma, Expect::Comma) {
                Err(f) => Err(f),
                Ok(j) => Ok((Args::Color { default }, j)),
            },
        }
    }
}

/// The entry type that the arguments give, or `None` where they contradict each other: a
/// string default longer in bytes than its maximum length, or literal integer bounds out of
/// order.
pub open spec fn entry_type_of(a: Args) -> Option<EntryType> {
    match a {
        Args::Int { default, min, max } => if int_bounds_ok(min, default, max) {
            Some(EntryType::Int { max, min, default, value: None })
        } else {
            None
        },
        Args::Str { max_length, default } => if 0 <= max_length <= usize::MAX && byte_len(default@)
            <= max_length {
            Some(EntryType::Str { max_length: max_length as usize, default, value: None })
        } else {
            None
        },
        Args::Color { default } => Some(EntryType::Color { default, value: None }),
    }
}

/// The invocation at `i`: its entry, and the index after it.
pub open spec fn cpp_entry(t: Seq<Spanned<Token>>, i: int) -> Result<(ConfigEntry, usize), Failure> {
    match take_head(t, i) {
        Err(f) => Err(f),
        Ok((kw, symbol, name)) => match take_args(t, kw, i + 6) {
            Err(f) => Err(f),
            Ok((a, j)) => match take_tail(t, j as int) {
                Err(f) => Err(f),
                Ok((bits, description, close, next)) => match entry_type_of(a) {
                    None => Err(Failure::Invalid { first: i as usize, last: close }),
                    Some(entry_type) => Ok(
                        (
                            ConfigEntry {
                                description,
                                entry_type,
                                flags: CFGFlags { bits },
                                name,
                                symbol,
                            },
                            next,
                        ),
                    ),
                },
            },
        },
    }
}

/// The invocations from `i` to the end of `t`. `stopped` says whether a lexical error follows
/// the last token; it fails the parse if the grammar reaches it.
pub open spec fn cpp_entries(t: Seq<Spanned<Token>>, i: int, stopped: bool) -> Result<
    Seq<ConfigEntry>,
    Failure,
>
    decreases t.len() - i,
{
    if i >= t.len() {
        if stopped {
            Err(at(i, Expect::Macro))
        } else {
            Ok(Seq::empty())
        }
    } else {
        match cpp_entry(t, i) {
            Err(f) => Err(f),
            Ok((e, j)) => if j > i {
                match cpp_entries(t, j as int, stopped) {
                    Err(f) => Err(f),
                    Ok(rest) => Ok(seq![e] + rest),
                }
            } else {
                Err(at(i, Expect::Macro))
            },
        }
    }
}

} // verus!

verus! {

fn take_comma(t: &Vec<Spanned<Token>>, i: usize, e: Expect) -> (r: Result<usize, Failure>)
    ensures
        r == take_punct(t@, i as int, Token::Comma, e),
        (r matches Ok(j) ==> j == i + 1 && j <= t@.len()),
{
    if i < t.len() && matches!(t[i].1, Token::Comma) {
        Ok(i + 1)
    } else {
        Err(Failure::At { index: i, expect: e })
    }
}

fn take_name_exec(t: &Vec<Spanned<Token>>, i: usize) -> (r: Result<String, Failure>)
    ensures
        r == take_name(t@, i as int),
        (r is Ok ==> i < t@.len()),
{
    if i < t.len() {
        match &t[i].1 {
            Token::Identifier(s) => Ok(s.clone()),
            Token::StringLiteral(s) => Ok(s.clone()),
            _ => Err(Failure::At { index: i, expect: Expect::Name }),
        }
    } else {
        Err(Failure::At { index: i, expect: Expect::Name })
    }
}

fn take_quoted_exec(t: &Vec<Spanned<Token>>, i: usize) -> (r: Result<String, Failure>)
    ensures
        r == take_quoted(t@, i as int),
        (r is Ok ==> i < t@.len()),
{
    if i < t.len() {
        match &t[i].1 {
            Token::StringLiteral(s) => Ok(s.clone()),
            _ => Err(Failure::At { index: i, expect: Expect::Quoted }),
        }
    } else {
        Err(Failure::At { index: i, expect: Expect::Quoted })
    }
}

fn take_int_exec(t: &Vec<Spanned<Token>>, i: usize) -> (r: Result<i64, Failure>)
    ensures
        r == take_int(t@, i as int),
        (r is Ok ==> i < t@.len()),
{
    if i < t.len() {
        match &t[i].1 {
            Token::Integer(v) => Ok(*v),
            _ => Err(Failure::At { index: i, expect: Expect::Integer }),
        }
    } else {
        Err(Failure::At { index: i, expect: Expect::Integer })
    }
}

fn take_bound_exec(t: &Vec<Spanned<Token>>, i: usize) -> (r: Result<IntBound, Failure>)
    ensures
        r == take_bound(t@, i as int),
        (r is Ok ==> i < t@.len()),
{
    if i < t.len() {
        match &t[i].1 {
            Token::Integer(v) => Ok(IntBound::Literal(*v)),
            Token::MaxClients => Ok(IntBound::MaxClients),
            Token::ServerInfoLevelMin => Ok(IntBound::ServerInfoLevelMin),
            Token::ServerInfoLevelMax => Ok(IntBound::ServerInfoLevelMax),
            _ => Err(Failure::At { index: i, expect: Expect::Bound }),
        }
    } else {
        Err(Failure::At { index: i, expect: Expect::Bound })
    }
}

fn flag_of_exec(t: &Token) -> (r: Option<Flag>)
    ensures
        r == flag_of(*t),
{
    match t {
        Token::FlagSave => Some(Flag::Save),
        Token::FlagClient => Some(Flag::Client),
        Token::FlagServer => Some(Flag::Server),
        Token::FlagInsensitive => Some(Flag::Insensitive),
        Token::FlagNonTeehistoric => Some(Flag::NonTeehistoric),
        Token::FlagMaster => Some(Flag::Master),
        Token::FlagEcon => Some(Flag::Econ),
        Token::FlagGame => Some(Flag::Game),
        Token::FlagColAlpha => Some(Flag::ColAlpha),
        Token::FlagColLight => Some(Flag::ColLight),
        _ => None,
    }
}

fn take_flags_exec(t: &Vec<Spanned<Token>>, i: usize) -> (r: Result<(u16, usize), Failure>)
    ensures
        r == take_flags(t@, i as int, 0),
        (r matches Err(f) ==> f is At),
        (r matches Ok((bits, j)) ==> i < j <= t@.len() && (CFGFlags { bits }).wf()),
{
    let mut acc: u16 = 0;
    let mut k = i;
    proof {
        assert(0u16 & !ALL_FLAG_BITS == 0) by (bit_vector);
    }
    loop
        invariant
            i <= k,
            take_flags(t@, i as int, 0) == take_flags(t@, k as int, acc),
            (CFGFlags { bits: acc }).wf(),
        decreases t@.len() - k,
    {
        if k >= t.len() {
            return Err(Failure::At { index: k, expect: Expect::Flag });
        }
        match flag_of_exec(&t[k].1) {
            None => {
                return Err(Failure::At { index: k, expect: Expect::Flag });
            },
            Some(f) => {
                let one = CFGFlags::from_flag(f);
                let bits = CFGFlags { bits: acc }.union(one).bits;
                if k + 1 < t.len() && matches!(t[k + 1].1, Token::Pipe) {
                    acc = bits;
                    k = k + 2;
                } else {
                    return Ok((bits, k + 1));
                }
            },
        }
    }
}

} // verus!

verus! {

fn take_tail_exec(t: &Vec<Spanned<Token>>, i: usize) -> (r: Result<(u16, String, usize, usize), Failure>)
    ensures
        r == take_tail(t@, i as int),
        (r matches Err(f) ==> f is At),
        (r matches Ok((bits, _, close, next)) ==> i < close < next <= t@.len() && (CFGFlags {
            bits,
        }).wf()),
{
    // reading the length tells the verifier that every index below fits in usize
    let _n = t.len();
    let (bits, j) = match take_flags_exec(t, i) {
        Err(f) => return Err(f),
        Ok(x) => x,
    };
    let k = match take_comma(t, j, Expect::PipeOrComma) {
        Err(f) => return Err(f),
        Ok(k) => k,
    };
    let desc = match take_quoted_exec(t, k) {
        Err(f) => return Err(f),
        Ok(d) => d,
    };
    if !(k + 1 < t.len() && matches!(t[k + 1].1, Token::RParen)) {
        return Err(Failure::At { index: k + 1, expect: Expect::RParen });
    }
    let m = k + 2;
    let next = if m < t.len() && matches!(t[m].1, Token::Semicolon) {
        m + 1
    } else {
        m
    };
    Ok((bits, desc, k + 1, next))
}

fn take_head_exec(t: &Vec<Spanned<Token>>, i: usize) -> (r: Result<(Token, String, String), Failure>)
    ensures
        r == take_head(t@, i as int),
        (r matches Err(f) ==> f is At),
        (r is Ok ==> i + 5 < t@.len()),
{
    if !(i < t.len() && (matches!(t[i].1, Token::MacroConfigInt) || matches!(t[i].1, Token::MacroConfigStr)
        || matches!(t[i].1, Token::MacroConfigColor))) {
        return Err(Failure::At { index: i, expect: Expect::Macro });
    }
    let kw = if matches!(t[i].1, Token::MacroConfigInt) {
        Token::MacroConfigInt
    } else if matches!(t[i].1, Token::MacroConfigStr) {
        Token::MacroConfigStr
    } else {
        Token::MacroConfigColor
    };
    if !(i + 1 < t.len() && matches!(t[i + 1].1, Token::LParen)) {
        return Err(Failure::At { index: i + 1, expect: Expect::LParen });
    }
    let symbol = match take_name_exec(t, i + 2) {
        Err(f) => return Err(f),
        Ok(s) => s,
    };
    match take_comma(t, i + 3, Expect::Comma) {
        Err(f) => return Err(f),
        Ok(_) => {},
    }
    let name = match take_name_exec(t, i + 4) {
        Err(f) => return Err(f),
        Ok(s) => s,
    };
    match take_comma(t, i + 5, Expect::Comma) {
        Err(f) => return Err(f),
        Ok(_) => {},
    }
    Ok((kw, symbol, name))
}

fn take_args_exec(t: &Vec<Spanned<Token>>, kw: &Token, i: usize) -> (r: Result<(Args, usize), Failure>)
    requires
        i <= t@.len(),
    ensures
        r == take_args(t@, *kw, i as int),
        (r matches Err(f) ==> f is At),
        (r matches Ok((_, j)) ==> i < j <= t@.len()),
{
    // reading the length tells the verifier that every index below fits in usize
    let _n = t.len();
    if matches!(kw, Token::MacroConfigInt) {
        let default = match take_bound_exec(t, i) {
            Err(f) => return Err(f),
            Ok(b) => b,
        };
        match take_comma(t, i + 1, Expect::Comma) {
            Err(f) => return Err(f),
            Ok(_) => {},
        }
        let min = match take_bound_exec(t, i + 2) {
            Err(f) => return Err(f),
            Ok(b) => b,
        };
        match take_comma(t, i + 3, Expect::Comma) {
            Err(f) => return Err(f),
            Ok(_) => {},
        }
        let max = match take_bound_exec(t, i + 4) {
            Err(f) => return Err(f),
            Ok(b) => b,
        };
        match take_comma(t, i + 5, Expect::Comma) {
            Err(f) => Err(f),
            Ok(j) => Ok((Args::Int { default, min, max }, j)),
        }
    } else if matches!(kw, Token::MacroConfigStr) {
        let max_length = match take_int_exec(t, i) {
            Err(f) => return Err(f),
            Ok(v) => v,
        };
        match take_comma(t, i + 1, Expect::Comma) {
            Err(f) => return Err(f),
            Ok(_) => {},
        }
        let default = match take_quoted_exec(t, i + 2) {
            Err(f) => return Err(f),
            Ok(s) => s,
        };
        match take_comma(t, i + 3, Expect::Comma) {
            Err(f) => Err(f),
            Ok(j) => Ok((Args::Str { max_length, default }, j)),
        }
    } else {
        let default = match take_int_exec(t, i) {
            Err(f) => return Err(f),
            Ok(v) => v,
        };
        match take_comma(t, i + 1, Expect::Comma) {
            Err(f) => Err(f),
            Ok(j) => Ok((Args::Color { default }, j)),
        }
    }
}

fn entry_type_of_exec(a: Args) -> (r: Option<EntryType>)
    ensures
        r == entry_type_of(a),
{
    match a {
        Args::Int { default, min, max } => {
            let ok = match (min, default, max) {
                (IntBound::Literal(lo), IntBound::Literal(d), IntBound::Literal(hi)) => lo <= d
                    && d <= hi,
                _ => true,
            };
            if ok {
                Some(EntryType::Int { max, min, default, value: None })
            } else {
                None
            }
        },
        Args::Str { max_length, default } => {
            if max_length < 0 || max_length as u64 > usize::MAX as u64 {
                return None;
            }
            let n = default.as_str().as_bytes().len();
            proof {
                lemma_byte_len_encode(default@);
            }
            if n <= max_length as usize {
                Some(EntryType::Str { max_length: max_length as usize, default, value: None })
            } else {
                None
            }
        },
        Args::Color { default } => Some(EntryType::Color { default, value: None }),
    }
}

fn cpp_entry_exec(t: &Vec<Spanned<Token>>, i: usize) -> (r: Result<(ConfigEntry, usize), Failure>)
    requires
        i < t@.len(),
    ensures
        r == cpp_entry(t@, i as int),
        (r matches Ok((_, j)) ==> i < j <= t@.len()),
        (r matches Err(Failure::Invalid { first, last }) ==> first <= last < t@.len()),
{
    // reading the length tells the verifier that every index below fits in usize
    let _n = t.len();
    let (kw, symbol, name) = match take_head_exec(t, i) {
        Err(f) => return Err(f),
        Ok(h) => h,
    };
    let (a, j) = match take_args_exec(t, &kw, i + 6) {
        Err(f) => return Err(f),
        Ok(x) => x,
    };
    let (bits, description, close, next) = match take_tail_exec(t, j) {
        Err(f) => return Err(f),
        Ok(x) => x,
    };
    match entry_type_of_exec(a) {
        None => Err(Failure::Invalid { first: i, last: close }),
        Some(entry_type) => Ok(
            (ConfigEntry { description, entry_type, flags: CFGFlags { bits }, name, symbol }, next),
        ),
    }
}

} // verus!

verus! {

/// `acc` followed by what `r` holds, or the failure of `r`.
pub open spec fn prepend(acc: Seq<ConfigEntry>, r: Result<Seq<ConfigEntry>, Failure>) -> Result<
    Seq<ConfigEntry>,
    Failure,
> {
    match r {
        Ok(rest) => Ok(acc + rest),
        Err(f) => Err(f),
    }
}

/// Parses all invocations of `t`; `stopped` as for `cpp_entries`.
pub fn parse_entries(t: &Vec<Spanned<Token>>, stopped: bool) -> (r: Result<Vec<ConfigEntry>, Failure>)
    ensures
        match cpp_entries(t@, 0, stopped) {
            Ok(es) => r is Ok && r->Ok_0@ == es,
            Err(f) => r == Err::<Vec<ConfigEntry>, Failure>(f),
        },
        (r matches Err(Failure::Invalid { first, last }) ==> first <= last < t@.len()),
{
    let mut out: Vec<ConfigEntry> = Vec::new();
    let mut i: usize = 0;
    assert(out@ + Seq::<ConfigEntry>::empty() =~= out@);
    assert(prepend(out@, cpp_entries(t@, 0, stopped)) == cpp_entries(t@, 0, stopped)) by {
        match cpp_entries(t@, 0, stopped) {
            Ok(rest) => {
                assert(out@ + rest =~= rest);
            },
            Err(_) => {},
        }
    }
    while i < t.len()
        invariant
            i <= t@.len(),
            cpp_entries(t@, 0, stopped) == prepend(out@, cpp_entries(t@, i as int, stopped)),
        decreases t@.len() - i,
    {
        match cpp_entry_exec(t, i) {
            Err(f) => {
                return Err(f);
            },
            Ok((e, j)) => {
                proof {
                    match cpp_entries(t@, j as int, stopped) {
                        Ok(rest) => {
                            assert(out@.push(e) + rest =~= out@ + (seq![e] + rest));
                        },
                        Err(_) => {},
                    }
                }
                out.push(e);
                i = j;
            },
        }
    }
    if stopped {
        return Err(Failure::At { index: i, expect: Expect::Macro });
    }
    assert(out@ + Seq::<ConfigEntry>::empty() =~= out@);
    Ok(out)
}

/// Every entry that the grammar builds is consistent.
pub proof fn lemma_entries_ok(t: Seq<Spanned<Token>>, i: int, stopped: bool)
    ensures
        cpp_entries(t, i, stopped) matches Ok(es) ==> forall|k: int|
            0 <= k < es.len() ==> entry_ok(#[trigger] es[k]),
    decreases t.len() - i,
{
    if i < t.len() {
        match cpp_entry(t, i) {
            Ok((e, j)) => {
                if j > i {
                    lemma_entries_ok(t, j as int, stopped);
                    lemma_entry_ok(t, i);
                    match cpp_entries(t, j as int, stopped) {
                        Ok(rest) => {
                            assert forall|k: int| 0 <= k < (seq![e] + rest).len() implies entry_ok(
                                #[trigger] (seq![e] + rest)[k],
                            ) by {
                                if k > 0 {
                                    assert((seq![e] + rest)[k] == rest[k - 1]);
                                }
                            }
                        },
                        Err(_) => {},
                    }
                }
            },
            Err(_) => {},
        }
    }
}

proof fn lemma_flags_wf(t: Seq<Spanned<Token>>, i: int, acc: u16)
    requires
        (CFGFlags { bits: acc }).wf(),
    ensures
        (take_flags(t, i, acc) matches Ok((bits, _)) ==> (CFGFlags { bits }).wf()),
    decreases t.len() - i,
{
    if 0 <= i < t.len() && flag_of(t[i].1) is Some {
        let b = flag_bit(flag_of(t[i].1)->0);
        assert(b == 1 || b == 2 || b == 4 || b == 8 || b == 16 || b == 32 || b == 64 || b == 128
            || b == 256 || b == 512);
        assert(acc & !ALL_FLAG_BITS == 0 && (b == 1 || b == 2 || b == 4 || b == 8 || b == 16 || b
            == 32 || b == 64 || b == 128 || b == 256 || b == 512) ==> (acc | b) & !ALL_FLAG_BITS
            == 0) by (bit_vector);
        if i + 1 < t.len() && t[i + 1].1 == Token::Pipe {
            lemma_flags_wf(t, i + 2, acc | b);
        }
    }
}

pub proof fn lemma_entry_ok(t: Seq<Spanned<Token>>, i: int)
    ensures
        cpp_entry(t, i) matches Ok((e, _)) ==> entry_ok(e),
{
    assert(0u16 & !ALL_FLAG_BITS == 0) by (bit_vector);
    match take_head(t, i) {
        Ok((kw, _, _)) => match take_args(t, kw, i + 6) {
            Ok((_, j)) => {
                lemma_flags_wf(t, j as int, 0);
            },
            Err(_) => {},
        },
        Err(_) => {},
    }
}

} // verus!

verus! {

/// A copy of a header token.
pub fn copy_token(t: &Token) -> (r: Token)
    ensures
        r == *t,
{
    match t {
        Token::MacroConfigInt => Token::MacroConfigInt,
        Token::MacroConfigStr => Token::MacroConfigStr,
        Token::MacroConfigColor => Token::MacroConfigColor,
        Token::FlagSave => Token::FlagSave,
        Token::FlagClient => Token::FlagClient,
        Token::FlagServer => Token::FlagServer,
        Token::FlagInsensitive => Token::FlagInsensitive,
        Token::FlagNonTeehistoric => Token::FlagNonTeehistoric,
        Token::FlagMaster => Token::FlagMaster,
        Token::FlagEcon => Token::FlagEcon,
        Token::FlagGame => Token::FlagGame,
        Token::FlagColAlpha => Token::FlagColAlpha,
        Token::FlagColLight => Token::FlagColLight,
        Token::StringLiteral(s) => Token::StringLiteral(s.clone()),
        Token::Identifier(s) => Token::Identifier(s.clone()),
        Token::Integer(v) => Token::Integer(*v),
        Token::LParen => Token::LParen,
        Token::RParen => Token::RParen,
        Token::Comma => Token::Comma,
        Token::Pipe => Token::Pipe,
        Token::Semicolon => Token::Semicolon,
        Token::MaxClients => Token::MaxClients,
        Token::ServerInfoLevelMin => Token::ServerInfoLevelMin,
        Token::ServerInfoLevelMax => Token::ServerInfoLevelMax,
    }
}

/// `e` reports failure `f` of the header grammar over `t`, where `tail` is the lexical error
/// after the last token, if any, and `eof` the byte length of the text.
pub open spec fn reports(
    t: Seq<Spanned<Token>>,
    tail: Option<LexicalError>,
    eof: usize,
    f: Failure,
    e: ParseError<Token>,
) -> bool {
    match f {
        Failure::At { index, expect } => if index < t.len() {
            e is UnexpectedToken && e->UnexpectedToken_token == t[index as int] && spells_all(
                e->UnexpectedToken_expected@,
                expected_names(expect),
            )
        } else if tail is Some {
            e == ParseError::<Token>::Lexical(tail->0)
        } else {
            e is UnexpectedEndOfInput && e->UnexpectedEndOfInput_location == eof && spells_all(
                e->UnexpectedEndOfInput_expected@,
                expected_names(expect),
            )
        },
        Failure::Invalid { first, last } => first <= last < t.len() && e == ParseError::<
            Token,
        >::InvalidEntry { start: t[first as int].0, end: t[last as int].2 },
    }
}

/// The error that reports failure `f` over the tokens `t`.
pub fn report(t: &Vec<Spanned<Token>>, tail: Option<LexicalError>, eof: usize, f: Failure) -> (r:
    ParseError<Token>)
    requires
        f matches Failure::Invalid { first, last } ==> first <= last < t@.len(),
    ensures
        reports(t@, tail, eof, f, r),
{
    match f {
        Failure::At { index, expect } => {
            if index < t.len() {
                let tok = &t[index];
                ParseError::UnexpectedToken {
                    token: (tok.0, copy_token(&tok.1), tok.2),
                    expected: expected_of(expect),
                }
            } else {
                match tail {
                    Some(e) => ParseError::Lexical(e),
                    None => ParseError::UnexpectedEndOfInput { location: eof, expected: expected_of(expect) },
                }
            }
        },
        Failure::Invalid { first, last } => ParseError::InvalidEntry { start: t[first].0, end: t[last].2 },
    }
}

} // verus!

verus! {

} // verus!

verus! {

/// An integer invocation whose bounds are literals out of order fails as a whole, at the
/// invocation: no entry is made of it.
pub proof fn lemma_int_bounds_out_of_order_fail(t: Seq<Spanned<Token>>, i: int, lo: i64, d: i64, hi: i64)
    requires
        take_head(t, i) matches Ok((kw, _, _)) && kw == Token::MacroConfigInt,
        take_args(t, Token::MacroConfigInt, i + 6) matches Ok((a, j)) && a == (Args::Int {
            default: IntBound::Literal(d),
            min: IntBound::Literal(lo),
            max: IntBound::Literal(hi),
        }) && take_tail(t, j as int) is Ok,
        !(lo <= d && d <= hi),
    ensures
        cpp_entry(t, i) matches Err(Failure::Invalid { first, .. }) && first == i as usize,
{
}

/// A string invocation whose default is longer in bytes than its literal maximum length fails as
/// a whole, at the invocation: no entry is made of it.
pub proof fn lemma_string_too_long_fail(t: Seq<Spanned<Token>>, i: int, max_length: i64, default: String)
    requires
        take_head(t, i) matches Ok((kw, _, _)) && kw == Token::MacroConfigStr,
        take_args(t, Token::MacroConfigStr, i + 6) matches Ok((a, j)) && a == (Args::Str {
            max_length,
            default,
        }) && take_tail(t, j as int) is Ok,
        byte_len(default@) > max_length,
    ensures
        cpp_entry(t, i) matches Err(Failure::Invalid { first, .. }) && first == i as usize,
{
}

/// Reading flags depends only on the tokens from where it starts.
proof fn lemma_flags_suffix(t: Seq<Spanned<Token>>, u: Seq<Spanned<Token>>, m: int, i: int, acc: u16)
    requires
        u.len() == t.len(),
        0 <= m <= i,
        forall|k: int| m <= k < t.len() ==> #[trigger] u[k] == t[k],
    ensures
        take_flags(u, i, acc) == take_flags(t, i, acc),
    decreases t.len() - i,
{
    if 0 <= i < t.len() && flag_of(t[i].1) is Some {
        assert(u[i] == t[i]);
        let bits = acc | flag_bit(flag_of(t[i].1)->0);
        if i + 1 < t.len() {
            assert(u[i + 1] == t[i + 1]);
            if t[i + 1].1 == Token::Pipe {
                lemma_flags_suffix(t, u, m, i + 2, bits);
            }
        }
    }
}

/// Swapping two flags joined by `|` leaves the flags that are read unchanged: `t` and `u`
/// differ only in that the flags at `i` and `i + 2` trade places.
pub proof fn lemma_flag_order_irrelevant(t: Seq<Spanned<Token>>, u: Seq<Spanned<Token>>, i: int, acc: u16)
    requires
        0 <= i,
        i + 2 < t.len(),
        u.len() == t.len(),
        flag_of(t[i].1) is Some,
        flag_of(t[i + 2].1) is Some,
        t[i + 1].1 == Token::Pipe,
        u[i].1 == t[i + 2].1,
        u[i + 2].1 == t[i].1,
        u[i + 1] == t[i + 1],
        forall|k: int| 0 <= k < t.len() && k != i && k != i + 2 ==> #[trigger] u[k] == t[k],
    ensures
        take_flags(u, i, acc) == take_flags(t, i, acc),
{
    let a = flag_bit(flag_of(t[i].1)->0);
    let b = flag_bit(flag_of(t[i + 2].1)->0);
    assert((acc | a) | b == (acc | b) | a) by (bit_vector);
    assert(take_flags(t, i, acc) == take_flags(t, i + 2, acc | a));
    assert(take_flags(u, i, acc) == take_flags(u, i + 2, acc | b));
    if i + 3 < t.len() {
        assert(u[i + 3] == t[i + 3]);
        if t[i + 3].1 == Token::Pipe {
            lemma_flags_suffix(t, u, i + 3, i + 4, (acc | a) | b);
        }
    }
}

/// Repeating a flag (`A | A` where `A` stood) reads the same flags as writing it once.
pub proof fn lemma_flag_repeat_irrelevant(t: Seq<Spanned<Token>>, i: int, acc: u16)
    requires
        0 <= i,
        i + 2 < t.len(),
        flag_of(t[i].1) is Some,
        t[i + 1].1 == Token::Pipe,
        t[i + 2].1 == t[i].1,
    ensures
        take_flags(t, i, acc) == take_flags(t, i + 2, acc),
{
    let a = flag_bit(flag_of(t[i].1)->0);
    assert((acc | a) | a == acc | a) by (bit_vector);
    assert(take_flags(t, i, acc) == take_flags(t, i + 2, acc | a));
}

} // verus!

verus! {

/// Flags read from a prefix of the tokens: the same flags where they end before the cut, and
/// otherwise an end at the cut or a failure there.
proof fn lemma_flags_cut(t: Seq<Spanned<Token>>, m: int, i: int, acc: u16)
    requires
        t.len() <= usize::MAX,
        0 <= i <= m <= t.len(),
        take_flags(t, i, acc) is Ok,
    ensures
        ({
            let u = t.take(m);
            let (bits, j) = take_flags(t, i, acc)->Ok_0;
            if j < m {
                take_flags(u, i, acc) == take_flags(t, i, acc)
            } else {
                take_flags(u, i, acc) == Err::<(u16, usize), Failure>(at(m, Expect::Flag)) || (take_flags(
                    u,
                    i,
                    acc,
                ) matches Ok((_, j2)) && j2 == m)
            }
        }),
    decreases t.len() - i,
{
    let u = t.take(m);
    lemma_flags_ok_bounds(t, i, acc);
    if i < m {
        assert(u[i] == t[i]);
        let bits = acc | flag_bit(flag_of(t[i].1)->0);
        if i + 1 < m {
            assert(u[i + 1] == t[i + 1]);
        }
        if i + 1 < t.len() && t[i + 1].1 == Token::Pipe {
            lemma_flags_ok_bounds(t, i + 2, bits);
            if i + 2 <= m {
                lemma_flags_cut(t, m, i + 2, bits);
            }
        }
    }
}

/// An invocation cut off anywhere after its keyword and before its closing parenthesis fails
/// where the input ends, naming what it expected there: `t` holds the tokens of one complete
/// invocation, and the text holds only its first `m` tokens.
pub proof fn lemma_cut_invocation_ends_input(
    t: Seq<Spanned<Token>>,
    m: int,
    eof: usize,
    r: Result<Vec<ConfigEntry>, ParseError<Token>>,
)
    requires
        t.len() <= usize::MAX,
        cpp_entry(t, 0) matches Ok((_, n)) && n == t.len(),
        1 <= m <= t.len(),
        forall|k: int| 0 <= k < m ==> (#[trigger] t[k]).1 != Token::RParen,
        crate::header_outcome(t.take(m), None, eof, r),
    ensures
        cpp_entries(t.take(m), 0, false) matches Err(Failure::At { index, .. }) && index == m,
        r matches Err(ParseError::UnexpectedEndOfInput { location, expected }) && location == eof
            && expected@.len() > 0,
{
    let u = t.take(m);
    assert(forall|k: int| 0 <= k < m ==> #[trigger] u[k] == t[k]);
    let (kw, _, _) = take_head(t, 0)->Ok_0;
    let (a, j) = take_args(t, kw, 6)->Ok_0;
    let (bits, desc, close, next) = take_tail(t, j as int)->Ok_0;
    let (fb, f) = take_flags(t, j as int, 0)->Ok_0;
    lemma_flags_ok_bounds(t, j as int, 0);
    assert(t[close as int].1 == Token::RParen);
    assert(m <= close);
    if j <= m {
        lemma_flags_cut(t, m, j as int, 0);
    }
    assert(u.len() == m);
    assert(cpp_entry(u, 0) matches Err(Failure::At { index, .. }) && index == m);
    assert(cpp_entries(u, 0, false) == Err::<Seq<ConfigEntry>, Failure>(cpp_entry(u, 0)->Err_0));
}

} // verus!

verus! {

/// The kind of entry that a macro keyword declares.
pub open spec fn declares(kw: Token, et: EntryType) -> bool {
    match et {
        EntryType::Int { .. } => kw == Token::MacroConfigInt,
        EntryType::Str { .. } => kw == Token::MacroConfigStr,
        EntryType::Color { .. } => kw == Token::MacroConfigColor,
    }
}

/// An invocation gives an entry of the kind its keyword declares, with the symbol, name and
/// description written in it, and no value.
pub proof fn lemma_entry_from_invocation(t: Seq<Spanned<Token>>, i: int)
    requires
        cpp_entry(t, i) is Ok,
    ensures
        ({
            let e = cpp_entry(t, i)->Ok_0.0;
            let (kw, symbol, name) = take_head(t, i)->Ok_0;
            &&& kw == t[i].1
            &&& declares(kw, e.entry_type)
            &&& e.symbol == symbol && e.name == name
            &&& e.symbol == take_name(t, i + 2)->Ok_0 && e.name == take_name(t, i + 4)->Ok_0
            &&& e.description == take_tail(t, take_args(t, kw, i + 6)->Ok_0.1 as int)->Ok_0.1
        }),
{
}

proof fn lemma_entry_progress(t: Seq<Spanned<Token>>, i: int)
    requires
        0 <= i,
        t.len() <= usize::MAX,
        cpp_entry(t, i) is Ok,
    ensures
        i < cpp_entry(t, i)->Ok_0.1,
{
    let (kw, _, _) = take_head(t, i)->Ok_0;
    let j = take_args(t, kw, i + 6)->Ok_0.1;
    lemma_flags_ok_bounds(t, j as int, 0);
}

/// Three complete invocations, one after the other, give exactly three entries, in the order of
/// the invocations, each of the kind its keyword declares.
pub proof fn lemma_three_invocations(t: Seq<Spanned<Token>>, n1: int, n2: int)
    requires
        t.len() <= usize::MAX,
        cpp_entry(t, 0) matches Ok((_, j)) && j == n1,
        cpp_entry(t, n1) matches Ok((_, j)) && j == n2,
        cpp_entry(t, n2) matches Ok((_, j)) && j == t.len(),
    ensures
        cpp_entries(t, 0, false) == Ok::<Seq<ConfigEntry>, Failure>(
            seq![cpp_entry(t, 0)->Ok_0.0, cpp_entry(t, n1)->Ok_0.0, cpp_entry(t, n2)->Ok_0.0],
        ),
        declares(t[0].1, cpp_entry(t, 0)->Ok_0.0.entry_type),
        declares(t[n1].1, cpp_entry(t, n1)->Ok_0.0.entry_type),
        declares(t[n2].1, cpp_entry(t, n2)->Ok_0.0.entry_type),
{
    lemma_entry_from_invocation(t, 0);
    lemma_entry_from_invocation(t, n1);
    lemma_entry_from_invocation(t, n2);
    lemma_entry_progress(t, 0);
    lemma_entry_progress(t, n1);
    lemma_entry_progress(t, n2);
    let e1 = cpp_entry(t, 0)->Ok_0.0;
    let e2 = cpp_entry(t, n1)->Ok_0.0;
    let e3 = cpp_entry(t, n2)->Ok_0.0;
    assert(cpp_entries(t, t.len() as int, false) == Ok::<Seq<ConfigEntry>, Failure>(Seq::empty()));
    assert(seq![e3] + Seq::<ConfigEntry>::empty() =~= seq![e3]);
    assert(cpp_entries(t, n2, false) == Ok::<Seq<ConfigEntry>, Failure>(seq![e3]));
    assert(seq![e2] + seq![e3] =~= seq![e2, e3]);
    assert(cpp_entries(t, n1, false) == Ok::<Seq<ConfigEntry>, Failure>(seq![e2, e3]));
    assert(seq![e1] + seq![e2, e3] =~= seq![e1, e2, e3]);
}

} // verus!

verus! {

proof fn lemma_flags_ok_bounds(t: Seq<Spanned<Token>>, i: int, acc: u16)
    requires
        t.len() <= usize::MAX,
    ensures
        (take_flags(t, i, acc) matches Ok((_, j)) ==> i < j),
    decreases t.len() - i,
{
    if 0 <= i < t.len() && flag_of(t[i].1) is Some {
        let bits = acc | flag_bit(flag_of(t[i].1)->0);
        if i + 1 < t.len() && t[i + 1].1 == Token::Pipe {
            lemma_flags_ok_bounds(t, i + 2, bits);
        }
    }
}

} // verus!

verus! {

/// `u` is `t` with the flags at `p` and `p + 2`, joined by `|`, trading places.
pub open spec fn flags_swapped(t: Seq<Spanned<Token>>, u: Seq<Spanned<Token>>, p: int) -> bool {
    &&& 0 <= p && p + 2 < t.len()
    &&& u.len() == t.len()
    &&& flag_of(t[p].1) is Some && flag_of(t[p + 2].1) is Some
    &&& t[p + 1].1 == Token::Pipe
    &&& u[p].1 == t[p + 2].1 && u[p + 2].1 == t[p].1
    &&& forall|k: int| 0 <= k < t.len() && k != p && k != p + 2 ==> #[trigger] u[k] == t[k]
}

proof fn lemma_flags_swapped_from(t: Seq<Spanned<Token>>, u: Seq<Spanned<Token>>, p: int, j: int, acc: u16)
    requires
        t.len() <= usize::MAX,
        flags_swapped(t, u, p),
        0 <= j <= p,
        (p - j) % 2 == 0,
    ensures
        take_flags(u, j, acc) == take_flags(t, j, acc),
    decreases p - j,
{
    if j == p {
        lemma_flag_order_irrelevant(t, u, p, acc);
    } else {
        assert(u[j] == t[j]);
        assert(u[j + 1] == t[j + 1]);
        if flag_of(t[j].1) is Some && t[j + 1].1 == Token::Pipe {
            let bits = acc | flag_bit(flag_of(t[j].1)->0);
            lemma_flags_swapped_from(t, u, p, j + 2, bits);
        }
    }
}

/// Writing two flags of an invocation in the other order (`B | A` for `A | B`) gives the same
/// entry: `u` is `t` with the flags at `p` and `p + 2` swapped, inside the flags argument of the
/// invocation at `i` (which starts at `j` and ends at `f`).
pub proof fn lemma_flag_swap_same_entry(
    t: Seq<Spanned<Token>>,
    u: Seq<Spanned<Token>>,
    i: int,
    p: int,
    j: usize,
    f: usize,
)
    requires
        t.len() <= usize::MAX,
        0 <= i,
        flags_swapped(t, u, p),
        take_head(t, i) is Ok,
        (take_args(t, take_head(t, i)->Ok_0.0, i + 6) matches Ok((_, j2)) && j2 == j),
        (take_flags(t, j as int, 0) matches Ok((_, f2)) && f2 == f),
        j <= p,
        (p - j) % 2 == 0,
        p + 2 < f,
    ensures
        cpp_entry(u, i) == cpp_entry(t, i),
{
    let (kw, _, _) = take_head(t, i)->Ok_0;
    lemma_flags_swapped_from(t, u, p, j as int, 0);
    assert(i + 5 < j);
    assert(u[i] == t[i] && u[i + 1] == t[i + 1] && u[i + 2] == t[i + 2] && u[i + 3] == t[i + 3]
        && u[i + 4] == t[i + 4] && u[i + 5] == t[i + 5]);
    assert(take_head(u, i) == take_head(t, i));
    assert(forall|k: int| i + 6 <= k < j ==> #[trigger] u[k] == t[k]);
    assert(take_args(u, kw, i + 6) == take_args(t, kw, i + 6));
    assert(forall|k: int| f <= k < t.len() ==> #[trigger] u[k] == t[k]);
    assert(take_tail(u, j as int) == take_tail(t, j as int));
}

} // verus!

verus! {

/// `u` is `t` from `d` on, moved `sh` places to the right.
pub open spec fn shifted(t: Seq<Spanned<Token>>, u: Seq<Spanned<Token>>, d: int, sh: int) -> bool {
    &&& u.len() == t.len() + sh
    &&& forall|k: int| #![trigger t[k]] d <= k < t.len() ==> u[k + sh] == t[k]
}

proof fn lemma_flags_shift(t: Seq<Spanned<Token>>, u: Seq<Spanned<Token>>, d: int, k: int, acc: u16)
    requires
        u.len() <= usize::MAX,
        0 <= d <= k,
        shifted(t, u, d, 2),
    ensures
        match take_flags(t, k, acc) {
            Ok((bits, f)) => take_flags(u, k + 2, acc) == Ok::<(u16, usize), Failure>((bits, (f + 2) as usize)),
            Err(_) => take_flags(u, k + 2, acc) is Err,
        },
    decreases t.len() - k,
{
    if k < t.len() {
        assert(u[k + 2] == t[k]);
        if k + 1 < t.len() {
            assert(u[k + 3] == t[k + 1]);
        }
        if flag_of(t[k].1) is Some && k + 1 < t.len() && t[k + 1].1 == Token::Pipe {
            lemma_flags_shift(t, u, d, k + 2, acc | flag_bit(flag_of(t[k].1)->0));
        }
    }
}

/// `u` is `t` with `| A` written after the flag `A` at `p`.
pub open spec fn flag_repeated(t: Seq<Spanned<Token>>, u: Seq<Spanned<Token>>, p: int) -> bool {
    &&& 0 <= p < t.len()
    &&& flag_of(t[p].1) is Some
    &&& u[p + 1].1 == Token::Pipe
    &&& u[p + 2].1 == t[p].1
    &&& forall|k: int| 0 <= k <= p ==> #[trigger] u[k] == t[k]
    &&& shifted(t, u, p + 1, 2)
}

proof fn lemma_flags_repeat_from(t: Seq<Spanned<Token>>, u: Seq<Spanned<Token>>, p: int, j: int, acc: u16)
    requires
        u.len() <= usize::MAX,
        flag_repeated(t, u, p),
        0 <= j <= p,
        (p - j) % 2 == 0,
        take_flags(t, j, acc) matches Ok((_, f)) && p < f,
    ensures
        match take_flags(t, j, acc) {
            Ok((bits, f)) => take_flags(u, j, acc) == Ok::<(u16, usize), Failure>((bits, (f + 2) as usize)),
            Err(_) => false,
        },
    decreases p - j,
{
    if j == p {
        let a = flag_bit(flag_of(t[p].1)->0);
        let x = acc | a;
        assert(x | a == x) by (bit_vector)
            requires x == acc | a;
        assert(u[p] == t[p]);
        assert(take_flags(u, p, acc) == take_flags(u, p + 2, x));
        assert(take_flags(u, p + 2, x) == take_flags(u, p + 2, acc)) by {
            lemma_flag_repeat_irrelevant(u, p, acc);
        }
        if p + 1 < t.len() {
            assert(u[p + 3] == t[p + 1]);
        }
        if p + 1 < t.len() && t[p + 1].1 == Token::Pipe {
            lemma_flags_shift(t, u, p + 1, p + 2, x);
        }
    } else {
        assert(u[j] == t[j]);
        assert(u[j + 1] == t[j + 1]);
        let bits = acc | flag_bit(flag_of(t[j].1)->0);
        lemma_flags_repeat_from(t, u, p, j + 2, bits);
    }
}

} // verus!

verus! {

/// Writing a flag of an invocation twice (`A | A` for `A`) gives the same entry: `u` is `t` with
/// `| A` added after the flag `A` at `p`, inside the flags argument of the invocation at `i`
/// (which starts at `j` and ends at `f`). What follows the invocation moves two tokens on.
pub proof fn lemma_flag_repeat_same_entry(
    t: Seq<Spanned<Token>>,
    u: Seq<Spanned<Token>>,
    i: int,
    p: int,
    j: usize,
    f: usize,
)
    requires
        u.len() <= usize::MAX,
        0 <= i,
        flag_repeated(t, u, p),
        take_head(t, i) is Ok,
        (take_args(t, take_head(t, i)->Ok_0.0, i + 6) matches Ok((_, j2)) && j2 == j),
        (take_flags(t, j as int, 0) matches Ok((_, f2)) && f2 == f),
        j <= p < f,
        (p - j) % 2 == 0,
    ensures
        (cpp_entry(t, i) matches Ok((e, n)) ==> cpp_entry(u, i) == Ok::<(ConfigEntry, usize), Failure>(
            (e, (n + 2) as usize),
        )),
{
    let (kw, _, _) = take_head(t, i)->Ok_0;
    lemma_flags_repeat_from(t, u, p, j as int, 0);
    assert(i + 5 < j);
    assert(u[i] == t[i] && u[i + 1] == t[i + 1] && u[i + 2] == t[i + 2] && u[i + 3] == t[i + 3]
        && u[i + 4] == t[i + 4] && u[i + 5] == t[i + 5]);
    assert(take_head(u, i) == take_head(t, i));
    assert(forall|k: int| i + 6 <= k < j ==> #[trigger] u[k] == t[k]);
    assert(take_args(u, kw, i + 6) == take_args(t, kw, i + 6));
    if cpp_entry(t, i) is Ok {
        assert(t[f as int] == u[f + 2]);
        assert(t[f + 1] == u[f + 3]);
        assert(t[f + 2] == u[f + 4]);
        if f + 3 < t.len() {
            assert(t[f + 3] == u[f + 5]);
        }
    }
}

} // verus!
