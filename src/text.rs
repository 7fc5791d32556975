use vstd::prelude::*;
use vstd::utf8::*;
use vstd::string::StringSliceAdditionalSpecFns;
use vstd::std_specs::iter::IteratorSpec;

verus! {

/// Number of bytes that UTF-8 takes for one character.
pub open spec fn char_width(c: char) -> nat {
    if (c as u32) <= 0x7f {
        1
    } else if (c as u32) <= 0x7ff {
        2
    } else if (c as u32) <= 0xffff {
        3
    } else {
        4
    }
}

/// Number of bytes that UTF-8 takes for a character sequence.
pub open spec fn byte_len(s: Seq<char>) -> nat
    decreases s.len(),
{
    if s.len() == 0 {
        0
    } else {
        byte_len(s.drop_last()) + char_width(s.last())
    }
}

/// Byte offset of the character at index `i`.
pub open spec fn byte_offset(s: Seq<char>, i: int) -> nat {
    byte_len(s.take(i))
}

proof fn lemma_encode_push(a: Seq<char>, c: char)
    ensures
        encode_utf8(a.push(c)).len() == encode_utf8(a).len() + char_width(c),
    decreases a.len(),
{
    char_is_scalar(c);
    if a.len() == 0 {
        assert(a.push(c).drop_first() =~= Seq::<char>::empty());
        assert(encode_utf8(Seq::<char>::empty()) =~= Seq::<u8>::empty());
    } else {
        assert(a.push(c).drop_first() =~= a.drop_first().push(c));
        lemma_encode_push(a.drop_first(), c);
    }
}

/// The byte length of a sequence is the length of its UTF-8 encoding.
pub proof fn lemma_byte_len_encode(s: Seq<char>)
    ensures
        byte_len(s) == encode_utf8(s).len(),
    decreases s.len(),
{
    if s.len() == 0 {
    } else {
        lemma_byte_len_encode(s.drop_last());
        lemma_encode_push(s.drop_last(), s.last());
        assert(s.drop_last().push(s.last()) =~= s);
    }
}

proof fn lemma_byte_len_monotonic(s: Seq<char>, i: int, j: int)
    requires
        0 <= i <= j <= s.len(),
    ensures
        byte_len(s.take(i)) <= byte_len(s.take(j)),
    decreases j - i,
{
    if i < j {
        lemma_byte_len_monotonic(s, i, j - 1);
        assert(s.take(j).drop_last() =~= s.take(j - 1));
    }
}

/// The characters of the text, in order.
pub fn chars_of(s: &str) -> (r: Vec<char>)
    ensures
        r@ == s@,
{
    let mut it = s.chars();
    let mut r: Vec<char> = Vec::new();
    let ghost all = s@;
    proof {
        broadcast use vstd::string::axiom_spec_iter;
    }
    assert(it.remaining() == all);
    loop
        invariant
            all == s@,
            r@ + it.remaining() == all,
            it.obeys_prophetic_iter_laws(),
            it.decrease() is Some,
        decreases it.decrease()->0,
    {
        let ghost before = it;
        let n = it.next();
        proof {
            vstd::string::next_postcondition(&before, &it, n);
        }
        match n {
            Some(c) => {
                assert(r@.push(c) + it.remaining() =~= r@ + before.remaining());
                r.push(c);
            },
            None => {
                assert(before.remaining().len() == 0);
                assert(r@ + before.remaining() =~= r@);
                assert(r@ == all);
                return r;
            },
        }
    }
}

/// Byte offset of each character of `s`, and of its end.
pub fn byte_offsets(s: &str, chars: &Vec<char>) -> (r: Vec<usize>)
    requires
        chars@ == s@,
    ensures
        r@.len() == chars@.len() + 1,
        forall|i: int| 0 <= i <= chars@.len() ==> r@[i] == byte_offset(chars@, i),
{
    let total = s.as_bytes().len();
    proof {
        lemma_byte_len_encode(s@);
        assert(total == s.spec_bytes().len());
        assert(s.spec_bytes() == encode_utf8(s@));
        assert(s@.take(s@.len() as int) =~= s@);
    }
    let mut r: Vec<usize> = Vec::new();
    let mut off: usize = 0;
    let mut i: usize = 0;
    assert(chars@.take(0) =~= Seq::<char>::empty());
    while i < chars.len()
        invariant
            i <= chars@.len(),
            r@.len() == i,
            off == byte_offset(chars@, i as int),
            total == byte_len(chars@),
            chars@.take(chars@.len() as int) =~= chars@,
            forall|k: int| 0 <= k < i ==> r@[k] == byte_offset(chars@, k),
        decreases chars@.len() - i,
    {
        r.push(off);
        let c = chars[i];
        proof {
            assert(chars@.take(i + 1).drop_last() =~= chars@.take(i as int));
            lemma_byte_len_monotonic(chars@, i + 1, chars@.len() as int);
        }
        let w: usize = if (c as u32) <= 0x7f {
            1
        } else if (c as u32) <= 0x7ff {
            2
        } else if (c as u32) <= 0xffff {
            3
        } else {
            4
        };
        off = off + w;
        i = i + 1;
    }
    r.push(off);
    r
}

/// Relies on String::push: appends one character at the end.
#[verifier::external_body]
fn push_char(s: &mut String, c: char)
    ensures
        final(s)@ == old(s)@.push(c),
{
    s.push(c);
}

/// The characters of `chars` from `start` up to `end`, as a `String`.
pub fn string_of(chars: &Vec<char>, start: usize, end: usize) -> (r: String)
    requires
        start <= end <= chars@.len(),
    ensures
        r@ == chars@.subrange(start as int, end as int),
{
    let mut r = String::new();
    let mut i = start;
    while i < end
        invariant
            start <= i <= end <= chars@.len(),
            r@ == chars@.subrange(start as int, i as int),
        decreases end - i,
    {
        push_char(&mut r, chars[i]);
        assert(chars@.subrange(start as int, i + 1) =~= chars@.subrange(start as int, i as int).push(chars@[i as int]));
        i = i + 1;
    }
    r
}

} // verus!
