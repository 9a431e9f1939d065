//! The Conventional Commits header grammar.
//!
//! A header is `type(scope)!: summary`, where the scope and the `!` are
//! optional. The grammar is the one of the patterns
//! `^(T1|..|Tn)(\([\w\-]+\))?(!)?: .+` (validation, on the trimmed message)
//! and `^(T1|..|Tn)(\(([^)]+)\))?(!)?: (.+)` (parsing, with captures), where
//! the commit types are taken literally.
use crate::text::{
    chars_of, has_prefix, slice_chars, starts_with, string_of, strs_view, trim, trim_chars,
};
use vstd::prelude::*;

verus! {

// ---------------------------------------------------------------------
// Specification
// ---------------------------------------------------------------------

/// Whether `c` belongs to the Unicode word class `\w` of the `regex` crate
/// (`\p{Alphabetic}`, `\p{M}`, `\d`, `\p{Pc}`, `\p{Join_Control}`).
pub uninterp spec fn regex_word_char(c: char) -> bool;

/// The characters allowed in a scope when validating: `[\w\-]`.
pub open spec fn is_scope_char(c: char) -> bool {
    c == '-' || regex_word_char(c)
}

/// Characters with a meaning of their own in a regular expression.
pub open spec fn is_regex_meta(c: char) -> bool {
    ||| c == '\\'
    ||| c == '.'
    ||| c == '+'
    ||| c == '*'
    ||| c == '?'
    ||| c == '('
    ||| c == ')'
    ||| c == '|'
    ||| c == '['
    ||| c == ']'
    ||| c == '{'
    ||| c == '}'
    ||| c == '^'
    ||| c == '$'
}

/// A commit type that a pattern reads literally.
pub open spec fn is_plain_type(t: Seq<char>) -> bool {
    forall|i: int| 0 <= i < t.len() ==> !is_regex_meta(#[trigger] t[i])
}

/// All the commit types are plain.
pub open spec fn all_plain(types: Seq<Seq<char>>) -> bool {
    forall|i: int| 0 <= i < types.len() ==> is_plain_type(#[trigger] types[i])
}

/// The first index `i >= from` with `s[i] == c`, or `-1`.
pub open spec fn first_index_of(s: Seq<char>, c: char, from: int) -> int
    decreases s.len() - from,
{
    if from < 0 || from >= s.len() {
        -1
    } else if s[from] == c {
        from
    } else {
        first_index_of(s, c, from + 1)
    }
}

/// What follows the optional scope: an optional `!`, then `: ` and a
/// summary that starts with a character other than a line feed. The
/// summary is the text up to the first line feed.
pub open spec fn parse_after_scope(x: Seq<char>) -> Option<Seq<char>> {
    let y = if x.len() > 0 && x[0] == '!' {
        x.skip(1)
    } else {
        x
    };
    if y.len() >= 3 && y[0] == ':' && y[1] == ' ' && y[2] != '\n' {
        let z = y.skip(2);
        let e = first_index_of(z, '\n', 0);
        Some(
            if e < 0 {
                z
            } else {
                z.take(e)
            },
        )
    } else {
        None
    }
}

/// Validation of what follows the type: the scope must be made of
/// scope characters.
pub open spec fn valid_tail(r: Seq<char>) -> bool {
    if r.len() > 0 && r[0] == '(' {
        let k = first_index_of(r, ')', 1);
        &&& k >= 2
        &&& forall|i: int| 1 <= i < k ==> is_scope_char(#[trigger] r[i])
        &&& parse_after_scope(r.skip(k + 1)) is Some
    } else {
        parse_after_scope(r) is Some
    }
}

/// Parsing of what follows the type: scope (any text without `)`) and
/// summary.
pub open spec fn parse_tail(r: Seq<char>) -> Option<(Option<Seq<char>>, Seq<char>)> {
    if r.len() > 0 && r[0] == '(' {
        let k = first_index_of(r, ')', 1);
        if k >= 2 {
            match parse_after_scope(r.skip(k + 1)) {
                Some(summary) => Some((Some(r.subrange(1, k)), summary)),
                None => None,
            }
        } else {
            None
        }
    } else {
        match parse_after_scope(r) {
            Some(summary) => Some((None, summary)),
            None => None,
        }
    }
}

/// `m` is a valid header for the commit type `t`.
pub open spec fn valid_with_type(m: Seq<char>, t: Seq<char>) -> bool {
    starts_with(m, t) && valid_tail(m.skip(t.len() as int))
}

/// The alternatives that the pattern offers for the type: the allowed
/// types, or the empty type when none is allowed (the pattern `^()...`).
pub open spec fn alternatives(types: Seq<Seq<char>>) -> Seq<Seq<char>> {
    if types.len() == 0 {
        seq![Seq::empty()]
    } else {
        types
    }
}

/// A message is a valid Conventional Commit for the allowed types when its
/// trimmed text starts with one of them and the rest of the header is valid.
pub open spec fn spec_valid_message(msg: Seq<char>, types: Seq<Seq<char>>) -> bool {
    exists|i: int|
        0 <= i < alternatives(types).len() && valid_with_type(
            trim(msg),
            #[trigger] alternatives(types)[i],
        )
}

/// Parsing tries the allowed types in order and takes the first one that
/// leads to a match.
pub open spec fn spec_parse_message(msg: Seq<char>, types: Seq<Seq<char>>) -> Option<
    (Seq<char>, Option<Seq<char>>, Seq<char>),
> {
    parse_in_order(msg, alternatives(types))
}

/// The first of the types `ts`, in order, that leads to a match.
pub open spec fn parse_in_order(msg: Seq<char>, ts: Seq<Seq<char>>) -> Option<
    (Seq<char>, Option<Seq<char>>, Seq<char>),
>
    decreases ts.len(),
{
    if ts.len() == 0 {
        None
    } else if starts_with(msg, ts[0]) && parse_tail(msg.skip(ts[0].len() as int)) is Some {
        let (scope, summary) = parse_tail(msg.skip(ts[0].len() as int)).unwrap();
        Some((ts[0], scope, summary))
    } else {
        parse_in_order(msg, ts.drop_first())
    }
}

// ---------------------------------------------------------------------
// Trusted: the `\w` class of the regex crate
// ---------------------------------------------------------------------

/// Tests a character against the Unicode word class `\w` of
/// `regex::Regex::is_match` (pattern `^\w$`). The contract only names the
/// result: the class is defined by Unicode tables inside the regex crate.
#[verifier::external_body]
fn regex_word_char_exec(c: char) -> (r: bool)
    ensures
        r == regex_word_char(c),
{
    let mut buf = [0u8;4];
    regex::Regex::new(r"^\w$").unwrap().is_match(c.encode_utf8(&mut buf))
}

// ---------------------------------------------------------------------
// Lemmas
// ---------------------------------------------------------------------

/// `first_index_of` finds the first occurrence from `from`.
pub proof fn lemma_first_index_of(s: Seq<char>, c: char, from: int, k: int)
    requires
        0 <= from <= k <= s.len(),
        forall|i: int| from <= i < k ==> s[i] != c,
        k == s.len() || s[k] == c,
    ensures
        first_index_of(s, c, from) == if k == s.len() {
            -1
        } else {
            k
        },
    decreases k - from,
{
    if from < k {
        lemma_first_index_of(s, c, from + 1, k);
    }
}

/// Validation accepts no more than parsing reads: the trimmed text of a
/// valid message parses.
pub proof fn lemma_valid_message_parses(msg: Seq<char>, types: Seq<Seq<char>>)
    requires
        spec_valid_message(msg, types),
    ensures
        spec_parse_message(trim(msg), types) is Some,
{
    let ts = alternatives(types);
    let i = choose|i: int| 0 <= i < ts.len() && valid_with_type(trim(msg), #[trigger] ts[i]);
    lemma_valid_type_parses(trim(msg), ts, i);
}

proof fn lemma_valid_type_parses(m: Seq<char>, types: Seq<Seq<char>>, i: int)
    requires
        0 <= i < types.len(),
        valid_with_type(m, types[i]),
    ensures
        parse_in_order(m, types) is Some,
    decreases types.len(),
{
    let r = m.skip(types[i].len() as int);
    assert(parse_tail(r) is Some);
    if !(starts_with(m, types[0]) && parse_tail(m.skip(types[0].len() as int)) is Some) {
        assert(i != 0);
        assert(types.drop_first()[i - 1] == types[i]);
        lemma_valid_type_parses(m, types.drop_first(), i - 1);
    }
}

// ---------------------------------------------------------------------
// Executable
// ---------------------------------------------------------------------

/// Scans `v` from `from` for `c`: the first index or `v.len()`.
fn scan_for(v: &[char], c: char, from: usize) -> (k: usize)
    requires
        from <= v@.len(),
    ensures
        from <= k <= v@.len(),
        first_index_of(v@, c, from as int) == if k == v@.len() {
            -1
        } else {
            k as int
        },
        forall|i: int| from <= i < k ==> v@[i] != c,
        k < v@.len() ==> v@[k as int] == c,
{
    let mut k = from;
    while k < v.len() && v[k] != c
        invariant
            from <= k <= v@.len(),
            forall|i: int| from <= i < k ==> v@[i] != c,
        decreases v.len() - k,
    {
        k += 1;
    }
    proof {
        lemma_first_index_of(v@, c, from as int, k as int);
    }
    k
}

/// Executable `parse_after_scope` on `v[at..]`.
fn parse_after_scope_at(v: &[char], at: usize) -> (r: Option<Vec<char>>)
    requires
        at <= v@.len(),
    ensures
        match parse_after_scope(v@.skip(at as int)) {
            Some(s) => r matches Some(x) && x@ == s,
            None => r is None,
        },
{
    let ghost x = v@.skip(at as int);
    let n = v.len();
    let mut p = at;
    if p < n && v[p] == '!' {
        p += 1;
    }
    let ghost y = v@.skip(p as int);
    assert(y == (if x.len() > 0 && x[0] == '!' {
        x.skip(1)
    } else {
        x
    }));
    if n - p >= 3 && v[p] == ':' && v[p + 1] == ' ' && v[p + 2] != '\n' {
        let e = scan_for(v, '\n', p + 2);
        proof {
            let z = y.skip(2);
            assert(z == v@.skip(p + 2));
            assert forall|i: int| 0 <= i < (e - (p + 2)) implies z[i] != '\n' by {
                assert(z[i] == v@[i + p + 2]);
            }
            if e < n {
                assert(z[e - (p + 2)] == '\n');
            }
            lemma_first_index_of(z, '\n', 0, e - (p + 2));
            if e < n {
                assert(z.take(e - (p + 2)) == v@.subrange(p + 2, e as int));
            } else {
                assert(z == v@.subrange(p + 2, e as int));
            }
        }
        Some(slice_chars(v, p + 2, e))
    } else {
        None
    }
}

/// Validation of the part of `v` after a type that ends at `at`.
fn valid_tail_at(v: &[char], at: usize) -> (b: bool)
    requires
        at <= v@.len(),
    ensures
        b == valid_tail(v@.skip(at as int)),
{
    let ghost r = v@.skip(at as int);
    let n = v.len();
    if at < n && v[at] == '(' {
        assert(r[0] == v@[at as int]);
        let k = scan_for(v, ')', at + 1);
        proof {
            assert forall|i: int| 1 <= i < k - at implies r[i] != ')' by {
                assert(r[i] == v@[i + at]);
            }
            if k < n {
                assert(r[k - at] == ')');
            }
            lemma_first_index_of(r, ')', 1, k - at);
        }
        if k == n || k - at < 2 {
            return false;
        }
        let mut i = at + 1;
        while i < k
            invariant
                at + 1 <= i <= k < n == v@.len(),
                r == v@.skip(at as int),
                r.len() > 0 && r[0] == '(',
                first_index_of(r, ')', 1) == k - at,
                forall|j: int| 1 <= j < i - at ==> is_scope_char(#[trigger] r[j]),
            decreases k - i,
        {
            let c = v[i];
            let ok = c == '-' || regex_word_char_exec(c);
            assert(r[i - at] == c);
            if !ok {
                return false;
            }
            i += 1;
        }
        let res = parse_after_scope_at(v, k + 1);
        assert(r.skip(k - at + 1) == v@.skip(k + 1));
        res.is_some()
    } else {
        let res = parse_after_scope_at(v, at);
        res.is_some()
    }
}

/// Parsing of the part of `v` after a type that ends at `at`.
fn parse_tail_at(v: &[char], at: usize) -> (res: Option<(Option<Vec<char>>, Vec<char>)>)
    requires
        at <= v@.len(),
    ensures
        match parse_tail(v@.skip(at as int)) {
            Some((sc, sum)) => res matches Some((rsc, rsum)) && rsum@ == sum && match sc {
                Some(s) => rsc matches Some(x) && x@ == s,
                None => rsc is None,
            },
            None => res is None,
        },
{
    let ghost r = v@.skip(at as int);
    let n = v.len();
    if at < n && v[at] == '(' {
        assert(r[0] == v@[at as int]);
        let k = scan_for(v, ')', at + 1);
        proof {
            assert forall|i: int| 1 <= i < k - at implies r[i] != ')' by {
                assert(r[i] == v@[i + at]);
            }
            if k < n {
                assert(r[k - at] == ')');
            }
            lemma_first_index_of(r, ')', 1, k - at);
        }
        if k == n || k - at < 2 {
            return None;
        }
        let res = parse_after_scope_at(v, k + 1);
        assert(r.skip(k - at + 1) == v@.skip(k + 1));
        match res {
            Some(sum) => {
                let scope = slice_chars(v, at + 1, k);
                assert(scope@ == r.subrange(1, k - at));
                Some((Some(scope), sum))
            },
            None => None,
        }
    } else {
        match parse_after_scope_at(v, at) {
            Some(sum) => Some((None, sum)),
            None => None,
        }
    }
}

/// The characters of each allowed type.
fn types_chars(allowed_types: &[&str]) -> (r: Vec<Vec<char>>)
    ensures
        r@.len() == allowed_types@.len(),
        forall|i: int| 0 <= i < r@.len() ==> #[trigger] r@[i]@ == allowed_types@[i]@,
{
    let mut r: Vec<Vec<char>> = Vec::new();
    let mut i: usize = 0;
    while i < allowed_types.len()
        invariant
            i <= allowed_types@.len(),
            r@.len() == i,
            forall|j: int| 0 <= j < i ==> #[trigger] r@[j]@ == allowed_types@[j]@,
        decreases allowed_types.len() - i,
    {
        r.push(chars_of(allowed_types[i]));
        i += 1;
    }
    r
}

/// The characters of each alternative for the type.
fn alternatives_chars(allowed_types: &[&str]) -> (r: Vec<Vec<char>>)
    ensures
        r@.len() == alternatives(strs_view(allowed_types@)).len(),
        forall|i: int|
            0 <= i < r@.len() ==> #[trigger] r@[i]@ == alternatives(strs_view(allowed_types@))[i],
{
    let mut r = types_chars(allowed_types);
    if r.len() == 0 {
        r.push(Vec::new());
        assert(r@[0]@ =~= Seq::<char>::empty());
    }
    r
}

/// Whether every allowed type is plain, so that it is read literally.
pub fn types_are_plain(allowed_types: &[&str]) -> (b: bool)
    ensures
        b == all_plain(strs_view(allowed_types@)),
{
    let ts = types_chars(allowed_types);
    let mut i: usize = 0;
    while i < ts.len()
        invariant
            i <= ts@.len() == allowed_types@.len(),
            forall|j: int| 0 <= j < ts@.len() ==> #[trigger] ts@[j]@ == allowed_types@[j]@,
            forall|j: int| 0 <= j < i ==> is_plain_type(#[trigger] strs_view(allowed_types@)[j]),
        decreases ts.len() - i,
    {
        let t = &ts[i];
        let mut k: usize = 0;
        while k < t.len()
            invariant
                k <= t@.len(),
                i < allowed_types@.len(),
                t@ == allowed_types@[i as int]@,
                forall|j: int| 0 <= j < k ==> !is_regex_meta(#[trigger] t@[j]),
            decreases t.len() - k,
        {
            let c = t[k];
            assert(strs_view(allowed_types@)[i as int] == t@);
            if c == '\\' || c == '.' || c == '+' || c == '*' || c == '?' || c == '(' || c == ')'
                || c == '|' || c == '[' || c == ']' || c == '{' || c == '}' || c == '^' || c
                == '$' {
                assert(is_regex_meta(t@[k as int]));
                return false;
            }
            k += 1;
        }
        assert(strs_view(allowed_types@)[i as int] == t@);
        i += 1;
    }
    true
}

/// Validates a commit message against the Conventional Commits header
/// grammar and the allowed types.
pub fn validate_conventional_commit_message(message: &str, allowed_types: &[&str]) -> (b: bool)
    requires
        all_plain(strs_view(allowed_types@)),
    ensures
        b == spec_valid_message(message@, strs_view(allowed_types@)),
{
    let ghost types = alternatives(strs_view(allowed_types@));
    let m = trim_chars(chars_of(message).as_slice());
    let ts = alternatives_chars(allowed_types);
    let mut i: usize = 0;
    while i < ts.len()
        invariant
            i <= ts@.len() == types.len(),
            types == alternatives(strs_view(allowed_types@)),
            m@ == trim(message@),
            forall|j: int| 0 <= j < ts@.len() ==> #[trigger] ts@[j]@ == types[j],
            forall|j: int| 0 <= j < i ==> !valid_with_type(m@, #[trigger] types[j]),
        decreases ts.len() - i,
    {
        let t = &ts[i];
        assert(types[i as int] == t@);
        if has_prefix(m.as_slice(), t.as_slice()) {
            if valid_tail_at(m.as_slice(), t.len()) {
                return true;
            }
        }
        i += 1;
    }
    false
}

/// Parses a Conventional Commit header into type, optional scope and
/// summary.
pub fn parse_commit_message(msg: &str, allowed_types: &[&str]) -> (res: Option<
    (String, Option<String>, String),
>)
    requires
        all_plain(strs_view(allowed_types@)),
    ensures
        match spec_parse_message(msg@, strs_view(allowed_types@)) {
            Some((t, sc, sum)) => res matches Some((rt, rsc, rsum)) && rt@ == t && rsum@ == sum
                && match sc {
                Some(s) => rsc matches Some(x) && x@ == s,
                None => rsc is None,
            },
            None => res is None,
        },
{
    let ghost types = alternatives(strs_view(allowed_types@));
    let m = chars_of(msg);
    let ts = alternatives_chars(allowed_types);
    let mut i: usize = 0;
    assert(types.skip(0) == types);
    while i < ts.len()
        invariant
            i <= ts@.len() == types.len(),
            types == alternatives(strs_view(allowed_types@)),
            m@ == msg@,
            forall|j: int| 0 <= j < ts@.len() ==> #[trigger] ts@[j]@ == types[j],
            spec_parse_message(msg@, strs_view(allowed_types@)) == parse_in_order(
                msg@,
                types.skip(i as int),
            ),
        decreases ts.len() - i,
    {
        let t = &ts[i];
        let ghost rest = types.skip(i as int);
        assert(rest[0] == t@);
        assert(rest.drop_first() == types.skip(i + 1));
        if has_prefix(m.as_slice(), t.as_slice()) {
            match parse_tail_at(m.as_slice(), t.len()) {
                Some((scope, summary)) => {
                    let scope_s = match scope {
                        Some(s) => Some(string_of(s.as_slice())),
                        None => None,
                    };
                    return Some((string_of(t.as_slice()), scope_s, string_of(summary.as_slice())));
                },
                None => {},
            }
        }
        i += 1;
    }
    assert(types.skip(i as int).len() == 0);
    None
}

/// The commits whose trimmed message is not a valid Conventional Commit,
/// each with its trimmed message, in the given order.
pub open spec fn invalid_commits(cs: Seq<(Seq<char>, Seq<char>)>, types: Seq<Seq<char>>) -> Seq<
    (Seq<char>, Seq<char>),
>
    decreases cs.len(),
{
    if cs.len() == 0 {
        Seq::empty()
    } else {
        let rest = invalid_commits(cs.drop_last(), types);
        let m = trim(cs.last().1);
        if spec_valid_message(m, types) {
            rest
        } else {
            rest.push((cs.last().0, m))
        }
    }
}

/// Finds the commits, given as (hash, full message) oldest first, whose
/// message is not a valid Conventional Commit.
pub fn find_invalid_commits(commits: &Vec<(String, String)>, allowed_types: &[&str]) -> (r: Vec<
    (String, String),
>)
    requires
        all_plain(strs_view(allowed_types@)),
    ensures
        r.deep_view() == invalid_commits(commits.deep_view(), strs_view(allowed_types@)),
{
    let ghost cs = commits.deep_view();
    let ghost types = strs_view(allowed_types@);
    let mut invalid: Vec<(String, String)> = Vec::new();
    let mut i: usize = 0;
    assert(cs.take(0) =~= Seq::<(Seq<char>, Seq<char>)>::empty());
    assert(invalid.deep_view() =~= invalid_commits(cs.take(0), types));
    while i < commits.len()
        invariant
            i <= commits@.len(),
            cs == commits.deep_view(),
            types == strs_view(allowed_types@),
            all_plain(types),
            invalid.deep_view() == invalid_commits(cs.take(i as int), types),
        decreases commits.len() - i,
    {
        let (hash, msg) = &commits[i];
        assert(cs[i as int] == (hash@, msg@));
        let message = crate::text::trimmed(msg.as_str());
        proof {
            assert(cs.take(i + 1).drop_last() == cs.take(i as int));
            assert(cs.take(i + 1).last() == cs[i as int]);
        }
        if !validate_conventional_commit_message(message.as_str(), allowed_types) {
            let ghost before = invalid.deep_view();
            let entry = (hash.clone(), message);
            invalid.push(entry);
            assert(invalid.deep_view() =~= before.push((hash@, trim(msg@))));
        }
        i += 1;
    }
    assert(cs.take(cs.len() as int) == cs);
    invalid
}

} // verus!
