//! Small string utilities.
use crate::text::{
    all_white_space, chars_of, is_white_space_char, lemma_trim_empty_iff_blank, owned, push_chars,
    strings_view, strs_view, trim,
};
use vstd::prelude::*;

verus! {

/// The uppercase mapping of a character (`char::to_uppercase`): one to
/// three characters, given by the Unicode case tables.
pub uninterp spec fn char_uppercase(c: char) -> Seq<char>;

/// Calls `char::to_uppercase` and collects the characters it yields: one or
/// more, as its documentation says. The contract names the result; which
/// characters they are comes from the Unicode tables and is not stated.
#[verifier::external_body]
fn uppercase_of(c: char) -> (r: String)
    ensures
        r@ == char_uppercase(c),
        r@.len() >= 1,
{
    c.to_uppercase().collect::<String>()
}

/// `s` with its first character replaced by its uppercase mapping.
pub open spec fn capitalized(s: Seq<char>) -> Seq<char> {
    if s.len() == 0 {
        Seq::empty()
    } else {
        char_uppercase(s[0]) + s.skip(1)
    }
}

/// Capitalizes the first letter of a string.
pub fn capitalize_first_letter(s: &str) -> (r: String)
    ensures
        r@ == capitalized(s@),
{
    let v = chars_of(s);
    if v.len() == 0 {
        return String::new();
    }
    let mut r = uppercase_of(v[0]);
    let mut i: usize = 1;
    let ghost up = r@;
    while i < v.len()
        invariant
            1 <= i <= v@.len(),
            v@ == s@,
            r@ == up + v@.subrange(1, i as int),
        decreases v.len() - i,
    {
        let c = v[i];
        crate::text::string_push(&mut r, c);
        i += 1;
        assert(v@.subrange(1, i as int) == v@.subrange(1, i - 1).push(c));
    }
    assert(v@.subrange(1, v@.len() as int) == s@.skip(1));
    r
}

/// Checks if a string is blank (empty or white space only).
pub fn is_blank(s: &str) -> (b: bool)
    ensures
        b == all_white_space(s@),
        b == (trim(s@).len() == 0),
{
    let v = chars_of(s);
    let mut i: usize = 0;
    while i < v.len()
        invariant
            i <= v@.len(),
            v@ == s@,
            forall|j: int| 0 <= j < i ==> crate::text::is_white_space(#[trigger] v@[j]),
        decreases v.len() - i,
    {
        if !is_white_space_char(v[i]) {
            proof {
                lemma_trim_empty_iff_blank(s@);
            }
            return false;
        }
        i += 1;
    }
    proof {
        lemma_trim_empty_iff_blank(s@);
    }
    true
}

/// Owned copies of string slices, in order.
pub fn strings(items: &[&str]) -> (r: Vec<String>)
    ensures
        strings_view(r@) == strs_view(items@),
{
    let mut r: Vec<String> = Vec::new();
    let mut i: usize = 0;
    while i < items.len()
        invariant
            i <= items@.len(),
            r@.len() == i,
            forall|j: int| 0 <= j < i ==> #[trigger] r@[j]@ == items@[j]@,
        decreases items.len() - i,
    {
        r.push(owned(items[i]));
        i += 1;
    }
    assert(strings_view(r@) =~= strs_view(items@));
    r
}

} // verus!
