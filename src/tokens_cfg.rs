use vstd::prelude::*;
use crate::scan::{is_digit, is_ident_start, scan, scan_run, Class};
use crate::text::{byte_offsets, chars_of, string_of};
use crate::tokens_cpp::{
    fits_i64, lex_number, number_end, number_value, offsets_ok, quote_end, quote_end_exec,
    starts_number, LexicalError, LexingError, Span, Spanned, Step,
};

verus! {

/// A token of the settings-file dialect.
#[derive(Clone, Debug, PartialEq)]
pub enum ConfigToken {
    StringLiteral(String),
    Identifier(String),
    Integer(i64),
    IP(String),
    Endline,
}

/// A value on a settings line.
#[derive(Clone, Debug)]
pub enum Value {
    Int(i64),
    String(String),
    IP(String),
    Key(String),
}

/// A settings line: a name and the values after it.
#[derive(Clone, Debug)]
pub struct ConfigLine {
    pub name: String,
    pub values: Vec<Value>,
}

/// End of a group of one to three digits from `i`.
pub open spec fn octet_end(s: Seq<char>, i: int) -> Option<int> {
    let e = scan(s, i, Class::Digit);
    if i + 1 <= e <= i + 3 {
        Some(e)
    } else {
        None
    }
}

/// A group of one to three digits from `i` followed by `sep`: the position after `sep`.
pub open spec fn octet_then(s: Seq<char>, i: int, sep: char) -> Option<int> {
    match octet_end(s, i) {
        Some(e) => if e < s.len() && s[e] == sep {
            Some(e + 1)
        } else {
            None
        },
        None => None,
    }
}

/// End of an address with port (`a.b.c.d:port`) that starts at `q`, if one does.
pub open spec fn ip_end(s: Seq<char>, q: int) -> Option<int> {
    match octet_then(s, q, '.') {
        None => None,
        Some(a) => match octet_then(s, a, '.') {
            None => None,
            Some(b) => match octet_then(s, b, '.') {
                None => None,
                Some(c) => match octet_then(s, c, ':') {
                    None => None,
                    Some(d) => {
                        let e = scan(s, d, Class::Digit);
                        if e > d {
                            Some(e)
                        } else {
                            None
                        }
                    },
                },
            },
        },
    }
}

/// The settings lexer's step at `p`, over characters.
pub open spec fn cfg_step(s: Seq<char>, p: int) -> Step {
    let q = scan(s, p, Class::HorizontalBlank);
    if q >= s.len() {
        Step::Done
    } else if s[q] == '\n' {
        Step::Found { start: q as usize, end: (q + 1) as usize }
    } else if s[q] == '\r' && q + 1 < s.len() && s[q + 1] == '\n' {
        Step::Found { start: q as usize, end: (q + 2) as usize }
    } else if s[q] == '"' {
        match quote_end(s, q + 1, q + 1, None) {
            Some(e) => Step::Found { start: q as usize, end: e as usize },
            None => Step::Fail {
                reason: LexingError::Other,
                start: q as usize,
                end: (q + 1) as usize,
                resume: (q + 1) as usize,
            },
        }
    } else if ip_end(s, q) is Some {
        Step::Found { start: q as usize, end: ip_end(s, q)->0 as usize }
    } else if starts_number(s, q) {
        let e = number_end(s, q);
        if fits_i64(number_value(s, q, e)) {
            Step::Found { start: q as usize, end: e as usize }
        } else {
            Step::Fail {
                reason: LexingError::NumberParseError,
                start: q as usize,
                end: e as usize,
                resume: e as usize,
            }
        }
    } else if is_ident_start(s[q]) {
        Step::Found { start: q as usize, end: scan(s, q + 1, Class::IdentChar) as usize }
    } else {
        Step::Fail {
            reason: LexingError::Other,
            start: q as usize,
            end: (q + 1) as usize,
            resume: (q + 1) as usize,
        }
    }
}

/// The token that the characters from `q` to `e` stand for, where `cfg_step` found one.
pub open spec fn cfg_token_is(s: Seq<char>, q: int, e: int, t: ConfigToken) -> bool {
    if s[q] == '\n' || s[q] == '\r' {
        t == ConfigToken::Endline
    } else if s[q] == '"' {
        t is StringLiteral && t->StringLiteral_0@ == s.subrange(q + 1, e - 1)
    } else if ip_end(s, q) is Some {
        t is IP && t->IP_0@ == s.subrange(q, e)
    } else if starts_number(s, q) {
        t is Integer && t->Integer_0 == number_value(s, q, e)
    } else {
        t is Identifier && t->Identifier_0@ == s.subrange(q, e)
    }
}

} // verus!

verus! {

fn octet_then_exec(chars: &Vec<char>, i: usize, sep: char) -> (r: Option<usize>)
    requires
        i <= chars@.len(),
    ensures
        match octet_then(chars@, i as int, sep) {
            Some(e) => r is Some && r->0 == e && i < e <= chars@.len(),
            None => r is None,
        },
{
    let e = scan_run(chars, i, Class::Digit);
    if e > i && e - i <= 3 && e < chars.len() && chars[e] == sep {
        Some(e + 1)
    } else {
        None
    }
}

fn ip_end_exec(chars: &Vec<char>, q: usize) -> (r: Option<usize>)
    requires
        q <= chars@.len(),
    ensures
        match ip_end(chars@, q as int) {
            Some(e) => r is Some && r->0 == e && q < e <= chars@.len(),
            None => r is None,
        },
{
    let a = match octet_then_exec(chars, q, '.') {
        None => return None,
        Some(a) => a,
    };
    assert(octet_then(chars@, q as int, '.') == Some(a as int));
    let b = match octet_then_exec(chars, a, '.') {
        None => {
            assert(ip_end(chars@, q as int) is None);
            return None;
        },
        Some(b) => b,
    };
    assert(octet_then(chars@, a as int, '.') == Some(b as int));
    let c = match octet_then_exec(chars, b, '.') {
        None => {
            assert(ip_end(chars@, q as int) is None);
            return None;
        },
        Some(c) => c,
    };
    assert(octet_then(chars@, b as int, '.') == Some(c as int));
    let d = match octet_then_exec(chars, c, ':') {
        None => {
            assert(ip_end(chars@, q as int) is None);
            return None;
        },
        Some(d) => d,
    };
    assert(octet_then(chars@, c as int, ':') == Some(d as int));
    let e = scan_run(chars, d, Class::Digit);
    if e > d {
        Some(e)
    } else {
        None
    }
}

/// One step of the settings lexer from `p`, over characters, with the token where one is found.
fn cfg_step_exec(chars: &Vec<char>, p: usize) -> (r: (Step, Option<ConfigToken>))
    requires
        p <= chars@.len(),
    ensures
        r.0 == cfg_step(chars@, p as int),
        match r.0 {
            Step::Found { start, end } => p <= start < end <= chars@.len() && r.1 is Some
                && cfg_token_is(chars@, start as int, end as int, r.1->0),
            Step::Fail { start, end, resume, .. } => p <= start < end <= chars@.len() && end
                <= resume <= chars@.len() && p < resume,
            Step::Done => true,
        },
{
    let n = chars.len();
    let q = scan_run(chars, p, Class::HorizontalBlank);
    if q >= n {
        return (Step::Done, None);
    }
    let c = chars[q];
    if c == '\n' {
        (Step::Found { start: q, end: q + 1 }, Some(ConfigToken::Endline))
    } else if c == '\r' && q + 1 < n && chars[q + 1] == '\n' {
        (Step::Found { start: q, end: q + 2 }, Some(ConfigToken::Endline))
    } else if c == '"' {
        match quote_end_exec(chars, q) {
            Some(e) => {
                let text = string_of(chars, q + 1, e - 1);
                (Step::Found { start: q, end: e }, Some(ConfigToken::StringLiteral(text)))
            },
            None => (
                Step::Fail { reason: LexingError::Other, start: q, end: q + 1, resume: q + 1 },
                None,
            ),
        }
    } else {
        match ip_end_exec(chars, q) {
            Some(e) => {
                let text = string_of(chars, q, e);
                (Step::Found { start: q, end: e }, Some(ConfigToken::IP(text)))
            },
            None => {
                if ('0' <= c && c <= '9') || (c == '-' && q + 1 < n && '0' <= chars[q + 1]
                    && chars[q + 1] <= '9') {
                    let (e, v) = lex_number(chars, q);
                    match v {
                        Some(v) => (Step::Found { start: q, end: e }, Some(ConfigToken::Integer(v))),
                        None => (
                            Step::Fail {
                                reason: LexingError::NumberParseError,
                                start: q,
                                end: e,
                                resume: e,
                            },
                            None,
                        ),
                    }
                } else if c == '_' || ('a' <= c && c <= 'z') || ('A' <= c && c <= 'Z') {
                    let e = scan_run(chars, q + 1, Class::IdentChar);
                    let text = string_of(chars, q, e);
                    (Step::Found { start: q, end: e }, Some(ConfigToken::Identifier(text)))
                } else {
                    (
                        Step::Fail { reason: LexingError::Other, start: q, end: q + 1, resume: q + 1 },
                        None,
                    )
                }
            },
        }
    }
}

/// `tok` is the settings token found between characters `start` and `end`.
pub open spec fn cfg_spanned_is(
    s: Seq<char>,
    off: Seq<usize>,
    start: int,
    end: int,
    tok: Spanned<ConfigToken>,
) -> bool {
    &&& tok.0 == off[start]
    &&& tok.2 == off[end]
    &&& cfg_token_is(s, start, end, tok.1)
}

/// Reading `toks` as the settings lexer's successive tokens from `p`: the position after the
/// last one, or `None` if they are not what the lexer finds.
pub open spec fn cfg_run(s: Seq<char>, off: Seq<usize>, p: int, toks: Seq<Spanned<ConfigToken>>) -> Option<
    int,
>
    decreases toks.len(),
{
    if toks.len() == 0 {
        Some(p)
    } else {
        match cfg_step(s, p) {
            Step::Found { start, end } => if cfg_spanned_is(s, off, start as int, end as int, toks[0]) {
                cfg_run(s, off, end as int, toks.drop_first())
            } else {
                None
            },
            _ => None,
        }
    }
}

/// `toks` are all the settings tokens from `p` on, and `tail` the lexical error that stops
/// them, if one does.
pub open spec fn cfg_lexes(
    s: Seq<char>,
    off: Seq<usize>,
    p: int,
    toks: Seq<Spanned<ConfigToken>>,
    tail: Option<LexicalError>,
) -> bool {
    match cfg_run(s, off, p, toks) {
        None => false,
        Some(q) => match cfg_step(s, q) {
            Step::Done => tail is None,
            Step::Found { .. } => false,
            Step::Fail { reason, start, end, .. } => tail == Some(
                LexicalError::InvalidToken(reason, Span { start: off[start as int], end: off[end as int] }),
            ),
        },
    }
}

proof fn lemma_cfg_run_push(
    s: Seq<char>,
    off: Seq<usize>,
    p: int,
    toks: Seq<Spanned<ConfigToken>>,
    t: Spanned<ConfigToken>,
    q: int,
    start: usize,
    end: usize,
)
    requires
        cfg_run(s, off, p, toks) == Some(q),
        cfg_step(s, q) == (Step::Found { start, end }),
        cfg_spanned_is(s, off, start as int, end as int, t),
    ensures
        cfg_run(s, off, p, toks.push(t)) == Some(end as int),
    decreases toks.len(),
{
    if toks.len() == 0 {
        assert(toks.push(t).drop_first() =~= Seq::<Spanned<ConfigToken>>::empty());
        assert(toks.push(t)[0] == t);
        assert(cfg_run(s, off, end as int, Seq::<Spanned<ConfigToken>>::empty()) == Some(end as int));
    } else {
        assert(toks.push(t)[0] == toks[0]);
        assert(toks.push(t).drop_first() =~= toks.drop_first().push(t));
        let e = cfg_step(s, p)->Found_end as int;
        lemma_cfg_run_push(s, off, e, toks.drop_first(), t, q, start, end);
    }
}

/// The settings lexer: hands out the tokens of a text one at a time.
pub struct ConfigLexer {
    /// The characters of the text.
    pub chars: Vec<char>,
    /// The byte offset of each character, and of the end.
    pub offsets: Vec<usize>,
    /// The character position where the next token is looked for.
    pub pos: usize,
}

impl ConfigLexer {
    pub open spec fn wf(&self) -> bool {
        &&& offsets_ok(self.chars@, self.offsets@)
        &&& self.pos <= self.chars@.len()
    }

    pub fn new(input: &str) -> (r: ConfigLexer)
        ensures
            r.wf(),
            r.chars@ == input@,
            r.pos == 0,
    {
        let chars = chars_of(input);
        let offsets = byte_offsets(input, &chars);
        ConfigLexer { chars, offsets, pos: 0 }
    }

    /// The next token, a lexical error, or `None` at the end of the text.
    pub fn next(&mut self) -> (r: Option<Result<Spanned<ConfigToken>, LexicalError>>)
        requires
            old(self).wf(),
        ensures
            final(self).wf(),
            final(self).chars@ == old(self).chars@,
            final(self).offsets@ == old(self).offsets@,
            match cfg_step(old(self).chars@, old(self).pos as int) {
                Step::Done => r is None && final(self).pos == old(self).pos,
                Step::Found { start, end } => r is Some && r->0 is Ok && cfg_spanned_is(
                    old(self).chars@,
                    old(self).offsets@,
                    start as int,
                    end as int,
                    r->0->Ok_0,
                ) && final(self).pos == end,
                Step::Fail { reason, start, end, resume } => r == Some(
                    Err::<Spanned<ConfigToken>, LexicalError>(
                        LexicalError::InvalidToken(
                            reason,
                            Span { start: old(self).offsets@[start as int], end: old(self).offsets@[end as int] },
                        ),
                    ),
                ) && final(self).pos == resume,
            },
    {
        let (step, tok) = cfg_step_exec(&self.chars, self.pos);
        match step {
            Step::Done => None,
            Step::Found { start, end } => {
                self.pos = end;
                match tok {
                    Some(t) => Some(Ok((self.offsets[start], t, self.offsets[end]))),
                    None => None,
                }
            },
            Step::Fail { reason, start, end, resume } => {
                self.pos = resume;
                Some(Err(LexicalError::InvalidToken(reason, Span { start: self.offsets[start], end: self.offsets[end] })))
            },
        }
    }

    /// All the tokens from the current position on, and the lexical error that stops them, if
    /// one does.
    pub fn tokenize(&mut self) -> (r: (Vec<Spanned<ConfigToken>>, Option<LexicalError>))
        requires
            old(self).wf(),
        ensures
            final(self).wf(),
            final(self).chars@ == old(self).chars@,
            final(self).offsets@ == old(self).offsets@,
            cfg_lexes(old(self).chars@, old(self).offsets@, old(self).pos as int, r.0@, r.1),
    {
        let ghost s = self.chars@;
        let ghost off = self.offsets@;
        let ghost first_pos = self.pos as int;
        let mut toks: Vec<Spanned<ConfigToken>> = Vec::new();
        loop
            invariant
                self.wf(),
                s == old(self).chars@,
                off == old(self).offsets@,
                first_pos == old(self).pos,
                self.chars@ == s,
                self.offsets@ == off,
                cfg_run(s, off, first_pos, toks@) == Some(self.pos as int),
            decreases self.chars@.len() - self.pos,
        {
            let ghost q = self.pos as int;
            let (step, tok) = cfg_step_exec(&self.chars, self.pos);
            match step {
                Step::Done => {
                    return (toks, None);
                },
                Step::Found { start, end } => {
                    match tok {
                        Some(t) => {
                            let item = (self.offsets[start], t, self.offsets[end]);
                            proof {
                                lemma_cfg_run_push(s, off, first_pos, toks@, item, q, start, end);
                            }
                            toks.push(item);
                            self.pos = end;
                        },
                        None => {
                            return (toks, None);
                        },
                    }
                },
                Step::Fail { reason, start, end, resume } => {
                    self.pos = resume;
                    return (
                        toks,
                        Some(LexicalError::InvalidToken(reason, Span { start: self.offsets[start], end: self.offsets[end] })),
                    );
                },
            }
        }
    }
}

} // verus!
