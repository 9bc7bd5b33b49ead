//! Text helpers shared by the scanner and the planners: joining path
//! components and folding case.

use vstd::prelude::*;
use vstd::string::*;
use vstd::utf8::is_ascii_chars;

verus! {

/// The text that Unicode lower-casing makes of `text`.
pub uninterp spec fn unicode_lowercase(text: Seq<char>) -> Seq<char>;

/// Calls `str::to_lowercase` of the standard library. Its result is taken on
/// trust to depend on the characters of `text` alone; nothing else is claimed
/// of it.
#[verifier::external_body]
pub(crate) fn to_lowercase(text: &str) -> (r: String)
    ensures
        r@ == unicode_lowercase(text@),
{
    text.to_lowercase()
}

/// The lower-case form of an ASCII capital letter; any other character as
/// it stands.
pub open spec fn ascii_lower_char(c: char) -> char {
    if 'A' <= c && c <= 'Z' {
        ((c as u8) + 32) as char
    } else {
        c
    }
}

/// `text` with every ASCII capital letter in lower case.
pub open spec fn ascii_lowercase(text: Seq<char>) -> Seq<char> {
    text.map_values(|c: char| ascii_lower_char(c))
}

/// `text` in lower case. Text of ASCII characters has its capital letters
/// folded one by one; text that holds any other character is folded as
/// Unicode lower-casing folds it.
pub open spec fn lowercase_spec(text: Seq<char>) -> Seq<char> {
    if is_ascii_chars(text) {
        ascii_lowercase(text)
    } else {
        unicode_lowercase(text)
    }
}

fn lower_char(c: char) -> (r: char)
    ensures
        r == ascii_lower_char(c),
{
    if c >= 'A' && c <= 'Z' {
        ((c as u8) + 32) as char
    } else {
        c
    }
}

/// Tells whether `text`, with its ASCII capital letters in lower case, is
/// `lower`.
pub fn folds_to(text: &str, lower: &str) -> (r: bool)
    ensures
        r == (ascii_lowercase(text@) == lower@),
{
    let n: usize = text.unicode_len();
    if lower.unicode_len() != n {
        return false;
    }
    let mut i: usize = 0;
    while i < n
        invariant
            i <= n,
            n == text@.len(),
            n == lower@.len(),
            forall|j: int| 0 <= j < i ==> ascii_lower_char(text@[j]) == lower@[j],
        decreases n - i,
    {
        if lower_char(text.get_char(i)) != lower.get_char(i) {
            assert(ascii_lowercase(text@)[i as int] != lower@[i as int]);
            return false;
        }
        i = i + 1;
    }
    assert(ascii_lowercase(text@) =~= lower@);
    true
}

/// `name` placed under the directory `base`: the two are joined by one `/`,
/// which is left out where `base` already ends in one or is empty.
pub open spec fn join_path_spec(base: Seq<char>, name: Seq<char>) -> Seq<char> {
    if base.len() == 0 {
        name
    } else if base.last() == '/' {
        base + name
    } else {
        base + seq!['/'] + name
    }
}

/// Places `name` under the directory `base`.
pub fn join_path(base: &str, name: &str) -> (r: String)
    ensures
        r@ == join_path_spec(base@, name@),
{
    let n: usize = base.unicode_len();
    if n == 0 {
        return String::from_str(name);
    }
    let mut out = String::from_str(base);
    if base.get_char(n - 1) != '/' {
        proof {
            reveal_strlit("/");
        }
        out.append("/");
        assert(out@ =~= base@ + seq!['/']);
    }
    out.append(name);
    out
}

} // verus!
