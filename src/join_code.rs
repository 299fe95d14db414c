//! Join codes: how they are drawn, normalized for lookup and formatted for display.

use vstd::prelude::*;

use crate::random::random_below;

verus! {

/// Letters a join code is drawn from: no vowels, so that codes spell no words.
pub const JOIN_CODE_CHARS: &'static str = "BCDFGHJKLMNPQRSTUVWXZY";

/// Number of letters in a freshly drawn join code.
pub const JOIN_CODE_LEN: usize = 6;

pub open spec fn join_code_alphabet() -> Seq<char> {
    seq![
        'B', 'C', 'D', 'F', 'G', 'H', 'J', 'K', 'L', 'M', 'N', 'P', 'Q', 'R', 'S', 'T', 'U', 'V',
        'W', 'X', 'Z', 'Y',
    ]
}

/// Every letter of `s` is drawn from the join code alphabet.
pub open spec fn is_code_text(s: Seq<char>) -> bool {
    forall|i: int| 0 <= i < s.len() ==> join_code_alphabet().contains(#[trigger] s[i])
}

pub open spec fn upper_letters() -> Seq<char> {
    seq![
        'A', 'B', 'C', 'D', 'E', 'F', 'G', 'H', 'I', 'J', 'K', 'L', 'M', 'N', 'O', 'P', 'Q', 'R',
        'S', 'T', 'U', 'V', 'W', 'X', 'Y', 'Z',
    ]
}

/// ASCII upper case of one character; other characters are kept.
pub open spec fn ascii_upper(c: char) -> char {
    if 'a' <= c && c <= 'z' {
        upper_letters()[(c as int) - ('a' as int)]
    } else {
        c
    }
}

/// A code as typed, without its separators and in upper case.
pub open spec fn normalized(s: Seq<char>) -> Seq<char>
    decreases s.len(),
{
    if s.len() == 0 {
        Seq::empty()
    } else if s.last() == '-' {
        normalized(s.drop_last())
    } else {
        normalized(s.drop_last()).push(ascii_upper(s.last()))
    }
}

/// A code for display: normalized, with a hyphen after the third letter when more follow.
pub open spec fn formatted(s: Seq<char>) -> Seq<char> {
    let n = normalized(s);
    if n.len() > 3 {
        n.subrange(0, 3) + seq!['-'] + n.subrange(3, n.len() as int)
    } else {
        n
    }
}

/// Draws a code of `len` random letters of the alphabet.
pub fn generate_code_of_len(len: usize) -> (r: String)
    ensures
        r@.len() == len,
        is_code_text(r@),
{
    proof {
        reveal_strlit("BCDFGHJKLMNPQRSTUVWXZY");
        assert(JOIN_CODE_CHARS@ =~= join_code_alphabet());
    }
    let n = JOIN_CODE_CHARS.unicode_len();
    let mut code = String::new();
    let mut i: usize = 0;
    while i < len
        invariant
            JOIN_CODE_CHARS@ == join_code_alphabet(),
            n == 22,
            i <= len,
            code@.len() == i,
            is_code_text(code@),
        decreases len - i,
    {
        let k = random_below(n);
        let letter = JOIN_CODE_CHARS.substring_char(k, k + 1);
        let ghost before = code@;
        code.append(letter);
        proof {
            assert(letter@ =~= seq![join_code_alphabet()[k as int]]);
            assert forall|j: int| 0 <= j < code@.len() implies join_code_alphabet().contains(
                #[trigger] code@[j],
            ) by {
                if j < before.len() {
                    assert(code@[j] == before[j]);
                } else {
                    assert(code@[j] == join_code_alphabet()[k as int]);
                }
            }
        }
        i = i + 1;
    }
    code
}

/// Draws a fresh join code.
pub fn generate_join_code() -> (r: String)
    ensures
        r@.len() == JOIN_CODE_LEN,
        is_code_text(r@),
{
    generate_code_of_len(JOIN_CODE_LEN)
}

/// Removes the separators of a typed code and brings it to upper case, so that it can
/// be looked up.
pub fn normalize_join_code(code: &str) -> (r: String)
    ensures
        r@ == normalized(code@),
{
    proof {
        reveal_strlit("ABCDEFGHIJKLMNOPQRSTUVWXYZ");
    }
    let upper: &str = "ABCDEFGHIJKLMNOPQRSTUVWXYZ";
    assert(upper@ =~= upper_letters());
    let len = code.unicode_len();
    let mut out = String::new();
    let mut i: usize = 0;
    while i < len
        invariant
            upper@ == upper_letters(),
            len == code@.len(),
            i <= len,
            out@ == normalized(code@.take(i as int)),
        decreases len - i,
    {
        let c = code.get_char(i);
        assert(code@.take(i + 1).drop_last() =~= code@.take(i as int));
        if c == '-' {
        } else if 'a' <= c && c <= 'z' {
            let k = (c as u32 - 'a' as u32) as usize;
            let letter = upper.substring_char(k, k + 1);
            assert(letter@ =~= seq![ascii_upper(c)]);
            out.append(letter);
        } else {
            let letter = code.substring_char(i, i + 1);
            assert(letter@ =~= seq![ascii_upper(c)]);
            out.append(letter);
        }
        i = i + 1;
    }
    assert(code@.take(len as int) =~= code@);
    out
}

/// Formats a typed code for display: normalized, and grouped as three letters, a
/// hyphen and the rest.
pub fn format_join_code(code: &str) -> (r: String)
    ensures
        r@ == formatted(code@),
{
    let n = normalize_join_code(code);
    let len = n.as_str().unicode_len();
    if len > 3 {
        let head = n.as_str().substring_char(0, 3);
        let tail = n.as_str().substring_char(3, len);
        let mut r = String::from_str(head);
        proof {
            reveal_strlit("-");
        }
        r.append("-");
        r.append(tail);
        r
    } else {
        n
    }
}

} // verus!
