//! A response is a run of tokens separated by ASCII whitespace. This module
//! says what the tokens of a text are and cuts them out one at a time.

use vstd::prelude::*;
use vstd::string::StringSliceAdditionalSpecFns;
use vstd::utf8::{
    encode_utf8_valid_utf8, is_char_boundary, is_char_boundary_iff_not_is_continuation_byte,
    is_char_boundary_start_end_of_seq, is_continuation_byte, length_of_first_scalar,
    pop_first_scalar, valid_first_scalar, valid_utf8, valid_utf8_split,
};

verus! {

/// The bytes that separate tokens: space, tab, line feed, form feed and
/// carriage return.
pub open spec fn is_ascii_space(b: u8) -> bool {
    b == 0x20 || b == 0x09 || b == 0x0A || b == 0x0C || b == 0x0D
}

/// The first position at or after `from` that holds no whitespace; the length
/// of `s` if there is none.
pub open spec fn skip_spaces(s: Seq<u8>, from: int) -> int
    decreases s.len() - from,
{
    if 0 <= from < s.len() && is_ascii_space(s[from]) {
        skip_spaces(s, from + 1)
    } else {
        from
    }
}

/// The first position at or after `from` that holds whitespace; the length of
/// `s` if there is none.
pub open spec fn skip_word(s: Seq<u8>, from: int) -> int
    decreases s.len() - from,
{
    if 0 <= from < s.len() && !is_ascii_space(s[from]) {
        skip_word(s, from + 1)
    } else {
        from
    }
}

/// The tokens of `s` in order: its maximal runs of bytes other than
/// whitespace.
pub open spec fn tokens(s: Seq<u8>) -> Seq<Seq<u8>>
    decreases s.len(),
{
    let start = skip_spaces(s, 0);
    let end = skip_word(s, start);
    if 0 <= start < end <= s.len() {
        seq![s.subrange(start, end)] + tokens(s.subrange(end, s.len() as int))
    } else {
        Seq::empty()
    }
}

proof fn lemma_skip_spaces_bounds(s: Seq<u8>, from: int)
    requires
        0 <= from <= s.len(),
    ensures
        from <= skip_spaces(s, from) <= s.len(),
        skip_spaces(s, from) < s.len() ==> !is_ascii_space(s[skip_spaces(s, from)]),
    decreases s.len() - from,
{
    if from < s.len() && is_ascii_space(s[from]) {
        lemma_skip_spaces_bounds(s, from + 1);
    }
}

proof fn lemma_skip_word_bounds(s: Seq<u8>, from: int)
    requires
        0 <= from <= s.len(),
    ensures
        from <= skip_word(s, from) <= s.len(),
        skip_word(s, from) < s.len() ==> is_ascii_space(s[skip_word(s, from)]),
        forall|i: int| from <= i < skip_word(s, from) ==> !is_ascii_space(s[i]),
    decreases s.len() - from,
{
    if from < s.len() && !is_ascii_space(s[from]) {
        lemma_skip_word_bounds(s, from + 1);
    }
}

/// No token is empty, and none holds whitespace.
pub proof fn lemma_tokens_are_words(s: Seq<u8>, i: int)
    requires
        0 <= i < tokens(s).len(),
    ensures
        tokens(s)[i].len() > 0,
        forall|k: int| 0 <= k < tokens(s)[i].len() ==> !is_ascii_space(#[trigger] tokens(s)[i][k]),
    decreases s.len(),
{
    let start = skip_spaces(s, 0);
    let end = skip_word(s, start);
    lemma_skip_spaces_bounds(s, 0);
    lemma_skip_word_bounds(s, start);
    if i > 0 {
        let rest = s.subrange(end, s.len() as int);
        lemma_tokens_are_words(rest, i - 1);
        assert(tokens(s)[i] == tokens(rest)[i - 1]);
    }
}

proof fn lemma_skip_word_to_end(s: Seq<u8>, from: int)
    requires
        0 <= from <= s.len(),
        forall|i: int| 0 <= i < s.len() ==> !is_ascii_space(s[i]),
    ensures
        skip_word(s, from) == s.len(),
    decreases s.len() - from,
{
    if from < s.len() {
        lemma_skip_word_to_end(s, from + 1);
    }
}

/// A text without whitespace that is not empty is one token: itself.
pub proof fn lemma_word_is_its_own_token(s: Seq<u8>)
    requires
        s.len() > 0,
        forall|i: int| 0 <= i < s.len() ==> !is_ascii_space(s[i]),
    ensures
        tokens(s) == seq![s],
{
    lemma_skip_word_to_end(s, 0);
    let rest = s.subrange(s.len() as int, s.len() as int);
    assert(rest.len() == 0);
    assert(tokens(rest) =~= Seq::<Seq<u8>>::empty());
    assert(s.subrange(0, s.len() as int) =~= s);
    assert(tokens(s) =~= seq![s]);
}

/// In well-formed UTF-8 a character begins after every byte below `0x80`.
proof fn lemma_boundary_after_ascii(s: Seq<u8>, i: int)
    requires
        valid_utf8(s),
        0 < i <= s.len(),
        s[i - 1] < 0x80,
    ensures
        is_char_boundary(s, i),
{
    if i == s.len() {
        is_char_boundary_start_end_of_seq(s);
    } else {
        is_char_boundary_iff_not_is_continuation_byte(s, i - 1);
        valid_utf8_split(s, i - 1);
        let tail = s.subrange(i - 1, s.len() as int);
        assert(valid_utf8(tail));
        assert(tail[0] == s[i - 1]);
        assert(length_of_first_scalar(tail) == 1);
        let after = pop_first_scalar(tail);
        assert(after =~= s.subrange(i, s.len() as int));
        assert(valid_utf8(after));
        assert(valid_first_scalar(after));
        assert(after[0] == s[i]);
        assert(!is_continuation_byte(s[i]));
        is_char_boundary_iff_not_is_continuation_byte(s, i);
    }
}

/// The byte before the first one that is not whitespace is whitespace.
proof fn lemma_space_before(s: Seq<u8>, start: int)
    requires
        0 < start <= s.len(),
        skip_spaces(s, 0) == start,
    ensures
        is_ascii_space(s[start - 1]),
{
    lemma_spaces_up_to(s, 0, start);
}

proof fn lemma_spaces_up_to(s: Seq<u8>, from: int, start: int)
    requires
        0 <= from <= start <= s.len(),
        skip_spaces(s, from) == start,
    ensures
        forall|i: int| from <= i < start ==> is_ascii_space(s[i]),
    decreases s.len() - from,
{
    if from < s.len() && is_ascii_space(s[from]) {
        lemma_skip_spaces_bounds(s, from + 1);
        lemma_spaces_up_to(s, from + 1, start);
    }
}

/// Whether a byte separates tokens.
pub fn is_space(b: u8) -> (r: bool)
    ensures
        r == is_ascii_space(b),
{
    b == 0x20 || b == 0x09 || b == 0x0A || b == 0x0C || b == 0x0D
}

/// Cuts the first token out of `text`. Returns the token and what follows
/// it, or `None` if `text` holds nothing but whitespace.
pub fn next_token<'a>(text: &'a str) -> (r: Option<(&'a str, &'a str)>)
    ensures
        match r {
            None => tokens(text.spec_bytes()).len() == 0,
            Some((token, rest)) => {
                &&& tokens(text.spec_bytes()).len() > 0
                &&& token.spec_bytes() == tokens(text.spec_bytes())[0]
                &&& rest.spec_bytes() == text.spec_bytes().skip(
                    skip_word(text.spec_bytes(), skip_spaces(text.spec_bytes(), 0)),
                )
                &&& tokens(rest.spec_bytes()) == tokens(text.spec_bytes()).drop_first()
                &&& rest.spec_bytes().len() < text.spec_bytes().len()
            },
        },
{
    let bytes = text.as_bytes();
    let n = bytes.len();
    let ghost s = text.spec_bytes();
    let mut start: usize = 0;
    while start < n && is_space(bytes[start])
        invariant
            bytes@ == s,
            n == s.len(),
            start <= n,
            skip_spaces(s, 0) == skip_spaces(s, start as int),
        decreases n - start,
    {
        start = start + 1;
    }
    if start == n {
        return None;
    }
    let mut end: usize = start + 1;
    assert(skip_word(s, start as int) == skip_word(s, start + 1));
    while end < n && !is_space(bytes[end])
        invariant
            bytes@ == s,
            n == s.len(),
            start < end <= n,
            skip_word(s, start as int) == skip_word(s, end as int),
        decreases n - end,
    {
        end = end + 1;
    }
    proof {
        encode_utf8_valid_utf8(text@);
        if end < n {
            is_char_boundary_iff_not_is_continuation_byte(s, end as int);
        } else {
            is_char_boundary_start_end_of_seq(s);
        }
    }
    let (head, rest) = text.split_at(end);
    proof {
        let h = head.spec_bytes();
        encode_utf8_valid_utf8(head@);
        assert(h =~= s.subrange(0, end as int));
        if start > 0 {
            assert(h[start - 1] == s[start - 1]);
            assert(is_ascii_space(s[start - 1])) by {
                lemma_space_before(s, start as int);
            }
            lemma_boundary_after_ascii(h, start as int);
        } else {
            is_char_boundary_start_end_of_seq(h);
        }
    }
    let (_, token) = head.split_at(start);
    proof {
        assert(token.spec_bytes() =~= s.subrange(start as int, end as int));
        assert(rest.spec_bytes() =~= s.subrange(end as int, n as int));
        let all = tokens(s);
        assert(all =~= seq![s.subrange(start as int, end as int)] + tokens(
            s.subrange(end as int, n as int),
        ));
        assert(all.drop_first() =~= tokens(s.subrange(end as int, n as int)));
    }
    Some((token, rest))
}

/// Splits `text` into its tokens.
pub fn tokenize<'a>(text: &'a str) -> (r: Vec<&'a str>)
    ensures
        r@.len() == tokens(text.spec_bytes()).len(),
        forall|i: int|
            0 <= i < r@.len() ==> (#[trigger] r@[i]).spec_bytes() == tokens(text.spec_bytes())[i],
{
    let mut found: Vec<&'a str> = Vec::new();
    let mut rest: &'a str = text;
    let ghost all = tokens(text.spec_bytes());
    loop
        invariant
            all == tokens(text.spec_bytes()),
            found@.len() + tokens(rest.spec_bytes()).len() == all.len(),
            forall|i: int| 0 <= i < found@.len() ==> (#[trigger] found@[i]).spec_bytes() == all[i],
            forall|i: int|
                0 <= i < tokens(rest.spec_bytes()).len() ==> tokens(rest.spec_bytes())[i]
                    == all[found@.len() + i],
        ensures
            found@.len() == all.len(),
            forall|i: int| 0 <= i < found@.len() ==> (#[trigger] found@[i]).spec_bytes() == all[i],
        decreases rest.spec_bytes().len(),
    {
        match next_token(rest) {
            None => {
                break;
            },
            Some((token, after)) => {
                found.push(token);
                rest = after;
            },
        }
    }
    found
}

} // verus!
