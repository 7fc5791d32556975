use vstd::prelude::*;
use crate::error::{expected_names, expected_of, spells_all, Expect, ParseError};
use crate::grammar_cpp::{at, Failure};
use crate::tokens_cfg::{ConfigLine, ConfigToken, Value};
use crate::tokens_cpp::{LexicalError, Spanned};

verus! {

/// The value that a token stands for after a line's name; `None` for the end of a line.
pub open spec fn value_of(t: ConfigToken) -> Option<Value> {
    match t {
        ConfigToken::Integer(v) => Some(Value::Int(v)),
        ConfigToken::StringLiteral(s) => Some(Value::String(s)),
        ConfigToken::IP(s) => Some(Value::IP(s)),
        ConfigToken::Identifier(s) => Some(Value::Key(s)),
        ConfigToken::Endline => None,
    }
}

/// The values from `i` to the end of the line: the values, and the index after the line.
/// `stopped` says whether a lexical error follows the last token.
pub open spec fn cfg_values(t: Seq<Spanned<ConfigToken>>, i: int, stopped: bool) -> Result<
    (Seq<Value>, usize),
    Failure,
>
    decreases t.len() - i,
{
    if i < 0 || i >= t.len() {
        if stopped {
            Err(at(i, Expect::LineName))
        } else {
            Ok((Seq::empty(), i as usize))
        }
    } else {
        match value_of(t[i].1) {
            None => Ok((Seq::empty(), (i + 1) as usize)),
            Some(v) => match cfg_values(t, i + 1, stopped) {
                Err(f) => Err(f),
                Ok((vs, j)) => Ok((seq![v] + vs, j)),
            },
        }
    }
}

/// The lines from `i` on, each as its name and values. Empty lines give nothing.
pub open spec fn cfg_lines(t: Seq<Spanned<ConfigToken>>, i: int, stopped: bool) -> Result<
    Seq<(String, Seq<Value>)>,
    Failure,
>
    decreases t.len() - i,
{
    if i < 0 || i >= t.len() {
        if stopped {
            Err(at(i, Expect::LineName))
        } else {
            Ok(Seq::empty())
        }
    } else {
        match t[i].1 {
            ConfigToken::Endline => cfg_lines(t, i + 1, stopped),
            ConfigToken::Identifier(name) => match cfg_values(t, i + 1, stopped) {
                Err(f) => Err(f),
                Ok((vs, j)) => if i < j <= t.len() {
                    match cfg_lines(t, j as int, stopped) {
                        Err(f) => Err(f),
                        Ok(rest) => Ok(seq![(name, vs)] + rest),
                    }
                } else {
                    Err(at(i, Expect::LineName))
                },
            },
            _ => Err(at(i, Expect::LineName)),
        }
    }
}

/// `lines` hold the names and values of `model`, in order.
pub open spec fn lines_are(lines: Seq<ConfigLine>, model: Seq<(String, Seq<Value>)>) -> bool {
    &&& lines.len() == model.len()
    &&& forall|k: int|
        #![trigger lines[k]]
        0 <= k < lines.len() ==> (lines[k].name == model[k].0 && lines[k].values@ == model[k].1)
}

/// Reading values from `i` ends after `i` and within the tokens.
pub proof fn lemma_cfg_values_bounds(t: Seq<Spanned<ConfigToken>>, i: int, stopped: bool)
    requires
        0 <= i <= t.len() <= usize::MAX,
    ensures
        (cfg_values(t, i, stopped) matches Ok((_, j)) ==> i <= j <= t.len()),
    decreases t.len() - i,
{
    if i < t.len() && value_of(t[i].1) is Some {
        lemma_cfg_values_bounds(t, i + 1, stopped);
    }
}

fn value_of_exec(t: &ConfigToken) -> (r: Option<Value>)
    ensures
        r == value_of(*t),
{
    match t {
        ConfigToken::Integer(v) => Some(Value::Int(*v)),
        ConfigToken::StringLiteral(s) => Some(Value::String(s.clone())),
        ConfigToken::IP(s) => Some(Value::IP(s.clone())),
        ConfigToken::Identifier(s) => Some(Value::Key(s.clone())),
        ConfigToken::Endline => None,
    }
}

fn parse_values(t: &Vec<Spanned<ConfigToken>>, i: usize, stopped: bool) -> (r: Result<(Vec<Value>, usize), Failure>)
    requires
        i <= t@.len(),
    ensures
        match cfg_values(t@, i as int, stopped) {
            Ok((vs, j)) => r is Ok && r->Ok_0.0@ == vs && r->Ok_0.1 == j && i <= j <= t@.len(),
            Err(f) => r == Err::<(Vec<Value>, usize), Failure>(f),
        },
{
    let mut out: Vec<Value> = Vec::new();
    let mut k = i;
    let n = t.len();
    loop
        invariant
            i <= k <= t@.len(),
            n == t@.len(),
            match cfg_values(t@, i as int, stopped) {
                Ok((vs, j)) => cfg_values(t@, k as int, stopped) matches Ok((ws, j2)) && vs == out@
                    + ws && j == j2,
                Err(f) => cfg_values(t@, k as int, stopped) == Err::<(Seq<Value>, usize), Failure>(
                    f,
                ),
            },
        decreases t@.len() - k,
    {
        proof {
            lemma_cfg_values_bounds(t@, k as int, stopped);
        }
        if k >= t.len() {
            if stopped {
                return Err(Failure::At { index: k, expect: Expect::LineName });
            }
            assert(out@ + Seq::<Value>::empty() =~= out@);
            return Ok((out, k));
        }
        match value_of_exec(&t[k].1) {
            None => {
                assert(out@ + Seq::<Value>::empty() =~= out@);
                return Ok((out, k + 1));
            },
            Some(v) => {
                proof {
                    match cfg_values(t@, k + 1, stopped) {
                        Ok((ws, _)) => {
                            assert(out@.push(v) + ws =~= out@ + (seq![v] + ws));
                        },
                        Err(_) => {},
                    }
                }
                out.push(v);
                k = k + 1;
            },
        }
    }
}

} // verus!

verus! {

/// Parses all lines of `t`; `stopped` as for `cfg_lines`.
pub fn parse_lines(t: &Vec<Spanned<ConfigToken>>, stopped: bool) -> (r: Result<Vec<ConfigLine>, Failure>)
    ensures
        match cfg_lines(t@, 0, stopped) {
            Ok(m) => r is Ok && lines_are(r->Ok_0@, m),
            Err(f) => r == Err::<Vec<ConfigLine>, Failure>(f),
        },
        (r matches Err(f) ==> f is At),
{
    let mut out: Vec<ConfigLine> = Vec::new();
    let mut i: usize = 0;
    let n = t.len();
    let ghost model: Seq<(String, Seq<Value>)> = Seq::empty();
    assert(cfg_lines(t@, 0, stopped) matches Ok(m) ==> m =~= model + m);
    proof {
        lemma_cfg_lines_at(t@, 0, stopped);
    }
    while i < n
        invariant
            i <= n,
            n == t@.len(),
            lines_are(out@, model),
            match cfg_lines(t@, 0, stopped) {
                Ok(m) => cfg_lines(t@, i as int, stopped) matches Ok(rest) && m == model + rest,
                Err(f) => cfg_lines(t@, i as int, stopped) == Err::<Seq<(String, Seq<Value>)>, Failure>(f),
            },
            (cfg_lines(t@, i as int, stopped) matches Err(f) ==> f is At),
        decreases n - i,
    {
        proof {
            lemma_cfg_lines_at(t@, i as int, stopped);
        }
        match &t[i].1 {
            ConfigToken::Endline => {
                i = i + 1;
            },
            ConfigToken::Identifier(name) => {
                let name = name.clone();
                proof {
                    lemma_cfg_values_bounds(t@, i + 1, stopped);
                }
                match parse_values(t, i + 1, stopped) {
                    Err(f) => {
                        return Err(f);
                    },
                    Ok((values, j)) => {
                        let ghost line = (name, values@);
                        proof {
                            match cfg_lines(t@, j as int, stopped) {
                                Ok(rest) => {
                                    assert(model.push(line) + rest =~= model + (seq![line] + rest));
                                },
                                Err(_) => {},
                            }
                        }
                        let ghost prev_out = out@;
                        let ghost prev_model = model;
                        let item = ConfigLine { name, values };
                        assert(item.name == line.0 && item.values@ == line.1);
                        out.push(item);
                        proof {
                            model = model.push(line);
                            assert forall|k: int| 0 <= k < out@.len() implies (#[trigger] out@[k]).name
                                == model[k].0 && out@[k].values@ == model[k].1 by {
                                if k < prev_out.len() {
                                    assert(out@[k] == prev_out[k]);
                                    assert(model[k] == prev_model[k]);
                                    assert(prev_out[k].name == prev_model[k].0);
                                    assert(prev_out[k].values@ == prev_model[k].1);
                                } else {
                                    assert(out@[k] == item);
                                    assert(model[k] == line);
                                }
                            }
                            assert(out@.len() == model.len());
                            assert(lines_are(out@, model));
                        }
                        i = j;
                    },
                }
            },
            _ => {
                return Err(Failure::At { index: i, expect: Expect::LineName });
            },
        }
    }
    if stopped {
        return Err(Failure::At { index: i, expect: Expect::LineName });
    }
    assert(cfg_lines(t@, 0, stopped) matches Ok(m) ==> m =~= model);
    Ok(out)
}

/// The failures of the settings grammar all name a token position.
pub proof fn lemma_cfg_lines_at(t: Seq<Spanned<ConfigToken>>, i: int, stopped: bool)
    requires
        0 <= i <= t.len() <= usize::MAX,
    ensures
        (cfg_lines(t, i, stopped) matches Err(f) ==> f is At),
    decreases t.len() - i,
{
    if i < t.len() {
        match t[i].1 {
            ConfigToken::Endline => lemma_cfg_lines_at(t, i + 1, stopped),
            ConfigToken::Identifier(_) => {
                lemma_cfg_values_at(t, i + 1, stopped);
                lemma_cfg_values_bounds(t, i + 1, stopped);
                match cfg_values(t, i + 1, stopped) {
                    Ok((_, j)) => if i < j <= t.len() {
                        lemma_cfg_lines_at(t, j as int, stopped);
                    },
                    Err(_) => {},
                }
            },
            _ => {},
        }
    }
}

proof fn lemma_cfg_values_at(t: Seq<Spanned<ConfigToken>>, i: int, stopped: bool)
    ensures
        (cfg_values(t, i, stopped) matches Err(f) ==> f is At),
    decreases t.len() - i,
{
    if 0 <= i < t.len() && value_of(t[i].1) is Some {
        lemma_cfg_values_at(t, i + 1, stopped);
    }
}

/// A copy of a settings token.
pub fn copy_config_token(t: &ConfigToken) -> (r: ConfigToken)
    ensures
        r == *t,
{
    match t {
        ConfigToken::StringLiteral(s) => ConfigToken::StringLiteral(s.clone()),
        ConfigToken::Identifier(s) => ConfigToken::Identifier(s.clone()),
        ConfigToken::Integer(v) => ConfigToken::Integer(*v),
        ConfigToken::IP(s) => ConfigToken::IP(s.clone()),
        ConfigToken::Endline => ConfigToken::Endline,
    }
}

/// `e` reports failure `f` of the settings grammar over `t`, where `tail` is the lexical error
/// after the last token, if any, and `eof` the byte length of the text.
pub open spec fn cfg_reports(
    t: Seq<Spanned<ConfigToken>>,
    tail: Option<LexicalError>,
    eof: usize,
    f: Failure,
    e: ParseError<ConfigToken>,
) -> bool {
    match f {
        Failure::At { index, expect } => if index < t.len() {
            e is UnexpectedToken && e->UnexpectedToken_token == t[index as int] && spells_all(
                e->UnexpectedToken_expected@,
                expected_names(expect),
            )
        } else if tail is Some {
            e == ParseError::<ConfigToken>::Lexical(tail->0)
        } else {
            e is UnexpectedEndOfInput && e->UnexpectedEndOfInput_location == eof && spells_all(
                e->UnexpectedEndOfInput_expected@,
                expected_names(expect),
            )
        },
        Failure::Invalid { .. } => false,
    }
}

/// The error that reports failure `f` over the tokens `t`.
pub fn cfg_report(t: &Vec<Spanned<ConfigToken>>, tail: Option<LexicalError>, eof: usize, f: Failure) -> (r:
    ParseError<ConfigToken>)
    requires
        f is At,
    ensures
        cfg_reports(t@, tail, eof, f, r),
{
    match f {
        Failure::At { index, expect } => {
            if index < t.len() {
                let tok = &t[index];
                ParseError::UnexpectedToken {
                    token: (tok.0, copy_config_token(&tok.1), tok.2),
                    expected: expected_of(expect),
                }
            } else {
                match tail {
                    Some(e) => ParseError::Lexical(e),
                    None => ParseError::UnexpectedEndOfInput { location: eof, expected: expected_of(expect) },
                }
            }
        },
        Failure::Invalid { first, .. } => ParseError::InvalidTokenAt { location: first },
    }
}

} // verus!
