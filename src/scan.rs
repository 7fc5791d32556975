use vstd::prelude::*;

verus! {

/// Classes of characters that a lexer scans runs of.
#[derive(Clone, Copy, Debug, PartialEq, Eq, Structural)]
pub enum Class {
    /// `0-9`
    Digit,
    /// `0-9` or `_`
    DigitOrUnderscore,
    /// `0-9a-fA-F` or `_`
    HexOrUnderscore,
    /// `_a-zA-Z0-9`
    IdentChar,
    /// anything but a newline
    NotNewline,
    /// space, tab or form feed
    HorizontalBlank,
}

pub open spec fn is_digit(c: char) -> bool {
    '0' <= c && c <= '9'
}

pub open spec fn is_hex_digit(c: char) -> bool {
    is_digit(c) || ('a' <= c && c <= 'f') || ('A' <= c && c <= 'F')
}

pub open spec fn is_ident_start(c: char) -> bool {
    c == '_' || ('a' <= c && c <= 'z') || ('A' <= c && c <= 'Z')
}

pub open spec fn in_class(cls: Class, c: char) -> bool {
    match cls {
        Class::Digit => is_digit(c),
        Class::DigitOrUnderscore => is_digit(c) || c == '_',
        Class::HexOrUnderscore => is_hex_digit(c) || c == '_',
        Class::IdentChar => is_ident_start(c) || is_digit(c),
        Class::NotNewline => c != '\n',
        Class::HorizontalBlank => c == ' ' || c == '\t' || c == '\x0c',
    }
}

pub fn class_has(cls: Class, c: char) -> (r: bool)
    ensures
        r == in_class(cls, c),
{
    match cls {
        Class::Digit => '0' <= c && c <= '9',
        Class::DigitOrUnderscore => ('0' <= c && c <= '9') || c == '_',
        Class::HexOrUnderscore => ('0' <= c && c <= '9') || ('a' <= c && c <= 'f') || ('A' <= c
            && c <= 'F') || c == '_',
        Class::IdentChar => c == '_' || ('a' <= c && c <= 'z') || ('A' <= c && c <= 'Z') || ('0'
            <= c && c <= '9'),
        Class::NotNewline => c != '\n',
        Class::HorizontalBlank => c == ' ' || c == '\t' || c == '\x0c',
    }
}

/// End of the longest run of `cls` characters that starts at `i`.
pub open spec fn scan(s: Seq<char>, i: int, cls: Class) -> int
    decreases s.len() - i,
{
    if 0 <= i < s.len() && in_class(cls, s[i]) {
        scan(s, i + 1, cls)
    } else {
        i
    }
}

/// Every character of a scanned run is in the class.
pub proof fn lemma_scan_in_class(s: Seq<char>, i: int, cls: Class)
    requires
        0 <= i <= s.len(),
    ensures
        i <= scan(s, i, cls) <= s.len(),
        forall|k: int| i <= k < scan(s, i, cls) ==> in_class(cls, #[trigger] s[k]),
    decreases s.len() - i,
{
    if i < s.len() && in_class(cls, s[i]) {
        lemma_scan_in_class(s, i + 1, cls);
    }
}

pub fn scan_run(chars: &Vec<char>, i: usize, cls: Class) -> (r: usize)
    requires
        i <= chars@.len(),
    ensures
        r == scan(chars@, i as int, cls),
        i <= r <= chars@.len(),
        forall|k: int| i <= k < r ==> in_class(cls, #[trigger] chars@[k]),
{
    proof {
        lemma_scan_in_class(chars@, i as int, cls);
    }
    let mut j = i;
    while j < chars.len() && class_has(cls, chars[j])
        invariant
            i <= j <= chars@.len(),
            scan(chars@, i as int, cls) == scan(chars@, j as int, cls),
        decreases chars@.len() - j,
    {
        j = j + 1;
    }
    j
}

/// Value of a digit character in base 16 (and so in base 10).
pub open spec fn digit_value(c: char) -> int {
    if is_digit(c) {
        (c as int) - ('0' as int)
    } else if 'a' <= c && c <= 'f' {
        (c as int) - ('a' as int) + 10
    } else {
        (c as int) - ('A' as int) + 10
    }
}

/// Value of a run of digits in the given base; underscores are skipped.
pub open spec fn digits_value(s: Seq<char>, radix: int) -> int
    decreases s.len(),
{
    if s.len() == 0 {
        0
    } else if s.last() == '_' {
        digits_value(s.drop_last(), radix)
    } else {
        digits_value(s.drop_last(), radix) * radix + digit_value(s.last())
    }
}

/// Bound past which a literal does not fit in `i64`, whatever its sign.
pub open spec fn magnitude_limit() -> int {
    0x8000_0000_0000_0000
}

proof fn lemma_digits_value_nonneg(s: Seq<char>, radix: int)
    requires
        radix >= 1,
        forall|k: int| 0 <= k < s.len() ==> in_class(Class::HexOrUnderscore, #[trigger] s[k]),
    ensures
        digits_value(s, radix) >= 0,
    decreases s.len(),
{
    if s.len() > 0 {
        lemma_digits_value_nonneg(s.drop_last(), radix);
        let v = digits_value(s.drop_last(), radix);
        assert(v * radix >= 0) by (nonlinear_arith)
            requires
                v >= 0,
                radix >= 1,
        ;
    }
}

/// Value of the digits from `start` to `end`, or `magnitude_limit() + 1` if it is larger
/// than `magnitude_limit()`.
pub fn digits_value_capped(chars: &Vec<char>, start: usize, end: usize, radix: u32) -> (r: u64)
    requires
        start <= end <= chars@.len(),
        radix == 10 || radix == 16,
        forall|k: int|
            start <= k < end ==> in_class(
                if radix == 10 {
                    Class::DigitOrUnderscore
                } else {
                    Class::HexOrUnderscore
                },
                #[trigger] chars@[k],
            ),
    ensures
        ({
            let v = digits_value(chars@.subrange(start as int, end as int), radix as int);
            if v > magnitude_limit() {
                r == magnitude_limit() + 1
            } else {
                r == v
            }
        }),
{
    let cap: u64 = 0x8000_0000_0000_0001;
    let mut acc: u64 = 0;
    let mut i = start;
    while i < end
        invariant
            start <= i <= end <= chars@.len(),
            radix == 10 || radix == 16,
            cap == magnitude_limit() + 1,
            forall|k: int|
                start <= k < end ==> in_class(
                    if radix == 10 {
                        Class::DigitOrUnderscore
                    } else {
                        Class::HexOrUnderscore
                    },
                    #[trigger] chars@[k],
                ),
            ({
                let v = digits_value(chars@.subrange(start as int, i as int), radix as int);
                if v > magnitude_limit() {
                    acc == cap
                } else {
                    acc == v
                }
            }),
        decreases end - i,
    {
        let c = chars[i];
        let ghost prev = chars@.subrange(start as int, i as int);
        let ghost next = chars@.subrange(start as int, i + 1);
        assert(next.drop_last() =~= prev);
        assert(next.last() == c);
        proof {
            assert forall|k: int| 0 <= k < prev.len() implies in_class(
                Class::HexOrUnderscore,
                #[trigger] prev[k],
            ) by {
                assert(prev[k] == chars@[start + k]);
            }
            lemma_digits_value_nonneg(prev, radix as int);
        }
        if c != '_' && acc != cap {
            let d: u64 = if '0' <= c && c <= '9' {
                (c as u64) - ('0' as u64)
            } else if 'a' <= c && c <= 'f' {
                (c as u64) - ('a' as u64) + 10
            } else {
                (c as u64) - ('A' as u64) + 10
            };
            assert(d == digit_value(c));
            assert(0 <= d < radix);
            let big = acc as u128 * radix as u128 + d as u128;
            if big > 0x8000_0000_0000_0000u128 {
                acc = cap;
            } else {
                acc = big as u64;
            }
        } else if c != '_' {
            let ghost v = digits_value(prev, radix as int);
            assert(v * radix + digit_value(c) > magnitude_limit()) by (nonlinear_arith)
                requires
                    v > magnitude_limit(),
                    radix >= 10,
                    digit_value(c) >= 0,
            ;
        }
        i = i + 1;
    }
    acc
}

/// Whether the characters from `start` to `end` spell `word`.
pub fn spells(chars: &Vec<char>, start: usize, end: usize, word: &str) -> (r: bool)
    requires
        start <= end <= chars@.len(),
    ensures
        r == (chars@.subrange(start as int, end as int) == word@),
{
    let n = word.unicode_len();
    if end - start != n {
        return false;
    }
    let mut k: usize = 0;
    while k < n
        invariant
            k <= n,
            n == word@.len(),
            end - start == n,
            start <= end <= chars@.len(),
            forall|m: int| 0 <= m < k ==> chars@[start + m] == word@[m],
        decreases n - k,
    {
        if chars[start + k] != word.get_char(k) {
            assert(chars@.subrange(start as int, end as int)[k as int] != word@[k as int]);
            return false;
        }
        k = k + 1;
    }
    assert(chars@.subrange(start as int, end as int) =~= word@);
    true
}

} // verus!
