//! The commit wizard: what it accepts from the user, and the message that
//! it commits.
use crate::git::commit::{
    alternatives,
    is_scope_char, lemma_first_index_of, parse_after_scope, parse_tail, spec_parse_message,
    spec_valid_message, valid_tail, valid_with_type,
};
use crate::text::{
    all_white_space, chars_of, contains_seq, is_white_space, occurs_at, lemma_trim_empty_iff_blank, lemma_trim_end_keeps_prefix,
    lemma_trim_ends, owned, push_str, starts_with, string_push, strings_contain, strings_view,
    trim, trim_end, trim_start, trimmed,
};
use crate::textmap::StrMap;
use crate::utils::is_blank;
use vstd::prelude::*;

verus! {

/// What the user gave on the command line.
pub struct CommitArgs {
    /// The commit type (`--type`).
    pub kind: Option<String>,
    pub scope: Option<String>,
    /// The summary (`--message`).
    pub message: Option<String>,
    pub breaking: bool,
    pub breaking_message: Option<String>,
    pub body: Option<String>,
    pub footer: Vec<String>,
}

/// Why the wizard refuses what it was given.
#[derive(Clone, Copy, Debug, PartialEq, Eq, Structural)]
pub enum CommitError {
    /// `--breaking` without a breaking message, with type and summary given.
    MissingBreakingMessage,
    /// The type is not one of the configured ones.
    InvalidType,
    /// The summary is blank.
    EmptySummary,
    /// The scope is not one of the scopes allowed for the type.
    InvalidScope,
    /// The breaking message is blank.
    EmptyBreakingMessage,
}

// ---------------------------------------------------------------------
// Specification
// ---------------------------------------------------------------------

/// The view of an optional string.
pub open spec fn text_opt(o: Option<String>) -> Option<Seq<char>> {
    match o {
        Some(s) => Some(s@),
        None => None,
    }
}

/// Both the type and the summary came on the command line: nothing is
/// asked.
pub open spec fn spec_non_interactive(a: CommitArgs) -> bool {
    a.kind is Some && a.message is Some
}

/// Breaking was asked for, without asking, and no breaking message given.
pub open spec fn missing_breaking_message(a: CommitArgs) -> bool {
    &&& spec_non_interactive(a)
    &&& a.breaking
    &&& match a.breaking_message {
        Some(m) => all_white_space(m@),
        None => true,
    }
}

/// The label of the breaking-change footer.
pub open spec fn breaking_change_label() -> Seq<char> {
    seq!['B', 'R', 'E', 'A', 'K', 'I', 'N', 'G', ' ', 'C', 'H', 'A', 'N', 'G', 'E', ':', ' ']
}

/// What follows the type in a header: the scope in brackets when there is
/// one, `!` for a breaking change, then `: ` and the summary
/// (`type(scope)!: summary`).
pub open spec fn after_type(breaking: bool, scope: Seq<char>, summary: Seq<char>) -> Seq<char> {
    (if scope.len() == 0 {
        Seq::empty()
    } else {
        seq!['('] + scope + seq![')']
    }) + marked(breaking, summary)
}

/// `!` for a breaking change, then `: ` and the summary.
pub open spec fn marked(breaking: bool, summary: Seq<char>) -> Seq<char> {
    (if breaking {
        seq!['!']
    } else {
        Seq::empty()
    }) + seq![':', ' '] + summary
}

/// The first line of the message: type, marks, scope and trimmed summary.
pub open spec fn commit_header(t: Seq<char>, breaking: bool, scope: Seq<char>, summary: Seq<char>) -> Seq<char> {
    t + after_type(breaking, scope, trim(summary))
}

/// The body, after a blank line, trimmed.
pub open spec fn body_part(body: Option<Seq<char>>) -> Seq<char> {
    match body {
        Some(b) => seq!['\n', '\n'] + trim(b),
        None => Seq::empty(),
    }
}

/// The breaking-change footer, after a blank line, trimmed.
pub open spec fn breaking_part(m: Option<Seq<char>>) -> Seq<char> {
    match m {
        Some(d) => seq!['\n', '\n'] + breaking_change_label() + trim(d),
        None => Seq::empty(),
    }
}

/// The footers that are not blank, each on a line of its own, as given.
pub open spec fn footer_lines(fs: Seq<Seq<char>>) -> Seq<char>
    decreases fs.len(),
{
    if fs.len() == 0 {
        Seq::empty()
    } else {
        footer_lines(fs.drop_last()) + if all_white_space(fs.last()) {
            Seq::empty()
        } else {
            seq!['\n'] + fs.last()
        }
    }
}

/// Everything after the header.
pub open spec fn message_rest(
    body: Option<Seq<char>>,
    breaking_message: Option<Seq<char>>,
    footers: Seq<Seq<char>>,
) -> Seq<char> {
    body_part(body) + breaking_part(breaking_message) + footer_lines(footers)
}

/// The commit message that the wizard writes.
pub open spec fn spec_commit_message(
    t: Seq<char>,
    breaking: bool,
    scope: Seq<char>,
    summary: Seq<char>,
    body: Option<Seq<char>>,
    breaking_message: Option<Seq<char>>,
    footers: Seq<Seq<char>>,
) -> Seq<char> {
    commit_header(t, breaking, scope, summary) + message_rest(body, breaking_message, footers)
}

/// The outcome of the wizard when type and summary are both given: the
/// scope, the breaking message and nothing else is asked for, and the
/// scope and breaking message are not used.
pub open spec fn spec_non_interactive_message(a: CommitArgs, types: Map<Seq<char>, Seq<char>>) -> Result<
    Seq<char>,
    CommitError,
> {
    let t = a.kind.unwrap()@;
    let m = a.message.unwrap()@;
    if missing_breaking_message(a) {
        Err(CommitError::MissingBreakingMessage)
    } else if !types.contains_key(t) {
        Err(CommitError::InvalidType)
    } else if all_white_space(m) {
        Err(CommitError::EmptySummary)
    } else {
        Ok(
            spec_commit_message(
                t,
                a.breaking,
                Seq::empty(),
                m,
                text_opt(a.body),
                None,
                strings_view(a.footer@),
            ),
        )
    }
}

// ---------------------------------------------------------------------
// Lemmas
// ---------------------------------------------------------------------

/// The footer lines are empty or start a new line.
proof fn lemma_footer_lines_start(fs: Seq<Seq<char>>)
    ensures
        footer_lines(fs).len() > 0 ==> footer_lines(fs)[0] == '\n',
    decreases fs.len(),
{
    if fs.len() > 0 {
        lemma_footer_lines_start(fs.drop_last());
    }
}

/// What follows the header is empty or starts a new line.
proof fn lemma_rest_start(
    body: Option<Seq<char>>,
    breaking_message: Option<Seq<char>>,
    footers: Seq<Seq<char>>,
)
    ensures
        message_rest(body, breaking_message, footers).len() > 0 ==> message_rest(
            body,
            breaking_message,
            footers,
        )[0] == '\n',
{
    lemma_footer_lines_start(footers);
}

/// A summary that is followed by nothing or by a new line is read whole.
proof fn lemma_after_marks(s: Seq<char>, r: Seq<char>)
    requires
        s.len() > 0,
        forall|i: int| 0 <= i < s.len() ==> s[i] != '\n',
        r.len() == 0 || r[0] == '\n',
    ensures
        parse_after_scope(seq![':', ' '] + s + r) == Some(s),
        parse_after_scope(seq!['!', ':', ' '] + s + r) == Some(s),
{
    let y = seq![':', ' '] + s + r;
    let z = y.skip(2);
    assert(z =~= s + r);
    assert forall|i: int| 0 <= i < s.len() implies z[i] != '\n' by {
        assert(z[i] == s[i]);
    }
    if r.len() > 0 {
        assert(z[s.len() as int] == r[0]);
    }
    lemma_first_index_of(z, '\n', 0, s.len() as int);
    if r.len() > 0 {
        assert(z.take(s.len() as int) =~= s);
    } else {
        assert(z =~= s);
    }
    assert((seq!['!', ':', ' '] + s + r).skip(1) =~= y);
}

/// What follows the type in a header is read back as the scope and the
/// summary.
proof fn lemma_tail_parses(breaking: bool, scope: Seq<char>, s: Seq<char>, r: Seq<char>)
    requires
        s.len() > 0,
        forall|i: int| 0 <= i < s.len() ==> s[i] != '\n',
        r.len() == 0 || r[0] == '\n',
        forall|i: int| 0 <= i < scope.len() ==> scope[i] != ')',
    ensures
        parse_tail(after_type(breaking, scope, s) + r) == Some(
            (
                if scope.len() == 0 {
                    None::<Seq<char>>
                } else {
                    Some(scope)
                },
                s,
            ),
        ),
{
    let x = after_type(breaking, scope, s) + r;
    let y = marked(breaking, s) + r;
    lemma_after_marks(s, r);
    if breaking {
        assert(y =~= seq!['!', ':', ' '] + s + r);
    } else {
        assert(y =~= seq![':', ' '] + s + r);
    }
    assert(parse_after_scope(y) == Some(s));
    if scope.len() > 0 {
        let n = scope.len() as int;
        assert(x =~= seq!['('] + scope + seq![')'] + y);
        assert(x[0] == '(');
        assert forall|i: int| 1 <= i < n + 1 implies x[i] != ')' by {
            assert(x[i] == scope[i - 1]);
        }
        assert(x[n + 1] == ')');
        lemma_first_index_of(x, ')', 1, n + 1);
        assert(x.skip(n + 2) =~= y);
        assert(x.subrange(1, n + 1) =~= scope);
    } else {
        assert(x =~= y);
        assert(y[0] == '!' || y[0] == ':');
    }
}

/// What follows the type in a header is valid whatever comes after the
/// first character of the summary.
proof fn lemma_tail_valid(breaking: bool, scope: Seq<char>, s: Seq<char>, r: Seq<char>)
    requires
        s.len() > 0,
        s[0] != '\n',
        forall|i: int| 0 <= i < scope.len() ==> is_scope_char(#[trigger] scope[i]) && scope[i] != ')',
    ensures
        valid_tail(after_type(breaking, scope, s) + r),
{
    let x = after_type(breaking, scope, s) + r;
    let y0 = seq![':', ' '] + s + r;
    let y = marked(breaking, s) + r;
    assert(y0[2] == s[0]);
    assert(parse_after_scope(y0) is Some);
    assert((seq!['!'] + y0).skip(1) =~= y0);
    assert(parse_after_scope(seq!['!'] + y0) is Some);
    if breaking {
        assert(y =~= seq!['!'] + y0);
    } else {
        assert(y =~= y0);
    }
    assert(parse_after_scope(y) is Some);
    if scope.len() > 0 {
        let n = scope.len() as int;
        assert(x =~= seq!['('] + scope + seq![')'] + y);
        assert(x[0] == '(');
        assert forall|i: int| 1 <= i < n + 1 implies x[i] != ')' by {
            assert(x[i] == scope[i - 1]);
        }
        assert(x[n + 1] == ')');
        lemma_first_index_of(x, ')', 1, n + 1);
        assert(x.skip(n + 2) =~= y);
        assert forall|i: int| 1 <= i < n + 1 implies is_scope_char(#[trigger] x[i]) by {
            assert(x[i] == scope[i - 1]);
        }
    } else {
        assert(x =~= y);
        assert(y[0] == '!' || y[0] == ':');
    }
}

/// Facts on the trimmed summary that the header needs.
proof fn lemma_summary(summary: Seq<char>)
    requires
        !all_white_space(summary),
    ensures
        trim(summary).len() > 0,
        !is_white_space(trim(summary)[0]),
        !is_white_space(trim(summary).last()),
{
    lemma_trim_empty_iff_blank(summary);
    lemma_trim_ends(summary);
}

/// A message that the wizard writes is a valid Conventional Commit when the
/// type is one of the allowed ones and does not start with white space,
/// the summary is not blank and the scope is made of scope characters.
pub proof fn lemma_commit_message_is_valid(
    t: Seq<char>,
    breaking: bool,
    scope: Seq<char>,
    summary: Seq<char>,
    body: Option<Seq<char>>,
    breaking_message: Option<Seq<char>>,
    footers: Seq<Seq<char>>,
    types: Seq<Seq<char>>,
)
    requires
        types.contains(t),
        t.len() > 0,
        !is_white_space(t[0]),
        !all_white_space(summary),
        forall|i: int| 0 <= i < scope.len() ==> is_scope_char(#[trigger] scope[i]) && scope[i] != ')',
    ensures
        spec_valid_message(
            spec_commit_message(t, breaking, scope, summary, body, breaking_message, footers),
            types,
        ),
{
    let s = trim(summary);
    let h = commit_header(t, breaking, scope, summary);
    let rest = message_rest(body, breaking_message, footers);
    let msg = h + rest;
    lemma_summary(summary);
    // The message starts with the type, so trimming keeps its start.
    assert(msg[0] == t[0]);
    assert(trim_start(msg) == msg);
    assert(h.last() == s.last());
    assert(msg[h.len() - 1] == h.last());
    lemma_trim_end_keeps_prefix(msg, h.len() as int);
    let m = trim(msg);
    let kept = rest.take(m.len() - h.len());
    assert(m =~= h + kept);
    assert(m.skip(t.len() as int) =~= after_type(breaking, scope, s) + kept);
    assert(m.take(t.len() as int) =~= t);
    lemma_tail_valid(breaking, scope, s, kept);
    let i = choose|i: int| 0 <= i < types.len() && types[i] == t;
    assert(alternatives(types) == types);
    assert(valid_with_type(m, alternatives(types)[i]));
}

/// Parsing with the type `u` reads `msg`: `u` is a prefix and what follows
/// it is a valid tail.
pub open spec fn read_by(msg: Seq<char>, u: Seq<char>) -> bool {
    starts_with(msg, u) && parse_tail(msg.skip(u.len() as int)) is Some
}

/// Parsing tries the types in order and stops at the first one that reads
/// the message.
proof fn lemma_parse_first(
    msg: Seq<char>,
    types: Seq<Seq<char>>,
    j: int,
    res: (Option<Seq<char>>, Seq<char>),
)
    requires
        0 <= j < types.len(),
        starts_with(msg, types[j]),
        parse_tail(msg.skip(types[j].len() as int)) == Some(res),
        forall|i: int| 0 <= i < j ==> !read_by(msg, #[trigger] types[i]),
    ensures
        spec_parse_message(msg, types) == Some((types[j], res.0, res.1)),
    decreases j,
{
    if j > 0 {
        assert(!read_by(msg, types[0]));
        let rest = types.drop_first();
        assert(rest[j - 1] == types[j]);
        assert forall|i: int| 0 <= i < j - 1 implies !read_by(msg, #[trigger] rest[i]) by {
            assert(rest[i] == types[i + 1]);
        }
        lemma_parse_first(msg, rest, j - 1, res);
    }
}

/// A message that the wizard writes parses back into its type, its scope
/// (none when empty) and its trimmed summary, when the summary is one line,
/// the scope has no `)`, and no type listed before it reads the message.
pub proof fn lemma_commit_message_parses(
    t: Seq<char>,
    breaking: bool,
    scope: Seq<char>,
    summary: Seq<char>,
    body: Option<Seq<char>>,
    breaking_message: Option<Seq<char>>,
    footers: Seq<Seq<char>>,
    types: Seq<Seq<char>>,
)
    requires
        !all_white_space(summary),
        forall|i: int| 0 <= i < trim(summary).len() ==> trim(summary)[i] != '\n',
        forall|i: int| 0 <= i < scope.len() ==> scope[i] != ')',
        exists|j: int|
            0 <= j < types.len() && types[j] == t && forall|i: int|
                0 <= i < j ==> !read_by(
                    spec_commit_message(t, breaking, scope, summary, body, breaking_message, footers),
                    #[trigger] types[i],
                ),
    ensures
        spec_parse_message(
            spec_commit_message(t, breaking, scope, summary, body, breaking_message, footers),
            types,
        ) == Some(
            (
                t,
                if scope.len() == 0 {
                    None::<Seq<char>>
                } else {
                    Some(scope)
                },
                trim(summary),
            ),
        ),
{
    let s = trim(summary);
    let rest = message_rest(body, breaking_message, footers);
    let msg = spec_commit_message(t, breaking, scope, summary, body, breaking_message, footers);
    lemma_summary(summary);
    lemma_rest_start(body, breaking_message, footers);
    assert(msg.skip(t.len() as int) =~= after_type(breaking, scope, s) + rest);
    assert(msg.take(t.len() as int) =~= t);
    lemma_tail_parses(breaking, scope, s, rest);
    let j = choose|j: int|
        0 <= j < types.len() && types[j] == t && forall|i: int|
            0 <= i < j ==> !read_by(msg, #[trigger] types[i]);
    lemma_parse_first(msg, types, j, (if scope.len() == 0 { None::<Seq<char>> } else { Some(scope) }, s));
}


/// Whenever a breaking message is given, the written message has the
/// footer `BREAKING CHANGE: ` and the trimmed breaking message after a
/// blank line, right after the header and the body if any, whatever the
/// body.
pub proof fn lemma_breaking_footer_written(
    t: Seq<char>,
    breaking: bool,
    scope: Seq<char>,
    summary: Seq<char>,
    body: Option<Seq<char>>,
    d: Seq<char>,
    footers: Seq<Seq<char>>,
)
    ensures
        occurs_at(
            spec_commit_message(t, breaking, scope, summary, body, Some(d), footers),
            "\n\nBREAKING CHANGE: "@ + trim(d),
            commit_header(t, breaking, scope, summary).len() + match body {
                Some(b) => 2 + trim(b).len() as int,
                None => 0int,
            },
        ),
        contains_seq(
            spec_commit_message(t, breaking, scope, summary, body, Some(d), footers),
            "BREAKING CHANGE: "@ + trim(d),
        ),
{
    reveal_strlit("\n\nBREAKING CHANGE: ");
    reveal_strlit("BREAKING CHANGE: ");
    let h = commit_header(t, breaking, scope, summary);
    let bp = body_part(body);
    let f = "\n\nBREAKING CHANGE: "@ + trim(d);
    let msg = spec_commit_message(t, breaking, scope, summary, body, Some(d), footers);
    assert(breaking_part(Some(d)) =~= f);
    assert(msg =~= h + bp + f + footer_lines(footers));
    let at: int = h.len() as int + bp.len() as int;
    assert(msg.subrange(at, at + f.len() as int) =~= f);
    let g = "BREAKING CHANGE: "@ + trim(d);
    assert(msg.subrange(at + 2, at + 2 + g.len() as int) =~= g);
    assert(occurs_at(msg, g, at + 2));
}

// ---------------------------------------------------------------------
// Executable
// ---------------------------------------------------------------------

/// Refuses `--breaking` without a breaking message when nothing is asked.
pub fn check_breaking_flag(args: &CommitArgs) -> (r: Result<(), CommitError>)
    ensures
        r == if missing_breaking_message(*args) {
            Err(CommitError::MissingBreakingMessage)
        } else {
            Ok::<(), CommitError>(())
        },
{
    let non_interactive = args.kind.is_some() && args.message.is_some();
    let missing = match &args.breaking_message {
        Some(m) => is_blank(m.as_str()),
        None => true,
    };
    if non_interactive && args.breaking && missing {
        Err(CommitError::MissingBreakingMessage)
    } else {
        Ok(())
    }
}

/// Accepts a commit type given on the command line when it is configured.
pub fn resolve_commit_type(given: &str, types: &StrMap<String>) -> (r: Result<String, CommitError>)
    requires
        types.wf(),
    ensures
        match r {
            Ok(t) => t@ == given@ && types.as_map().contains_key(given@),
            Err(e) => e == CommitError::InvalidType && !types.as_map().contains_key(given@),
        },
{
    if types.contains_key(given) {
        Ok(owned(given))
    } else {
        Err(CommitError::InvalidType)
    }
}

/// Accepts a summary given on the command line when it is not blank.
pub fn resolve_summary(given: &str) -> (r: Result<String, CommitError>)
    ensures
        match r {
            Ok(s) => s@ == given@ && !all_white_space(given@),
            Err(e) => e == CommitError::EmptySummary && all_white_space(given@),
        },
{
    if is_blank(given) {
        Err(CommitError::EmptySummary)
    } else {
        Ok(owned(given))
    }
}

/// Accepts a scope given on the command line when the type allows any
/// scope (no scopes are listed) or lists it.
pub fn resolve_scope(given: &str, allowed: &Vec<String>) -> (r: Result<String, CommitError>)
    ensures
        match r {
            Ok(s) => s@ == given@ && (allowed@.len() == 0 || strings_view(allowed@).contains(given@)),
            Err(e) => e == CommitError::InvalidScope && allowed@.len() > 0 && !strings_view(
                allowed@,
            ).contains(given@),
        },
{
    if allowed.len() == 0 || strings_contain(allowed, given) {
        Ok(owned(given))
    } else {
        Err(CommitError::InvalidScope)
    }
}

/// Accepts a breaking message given on the command line when it is not
/// blank.
pub fn resolve_breaking_message(given: &str) -> (r: Result<String, CommitError>)
    ensures
        match r {
            Ok(s) => s@ == given@ && !all_white_space(given@),
            Err(e) => e == CommitError::EmptyBreakingMessage && all_white_space(given@),
        },
{
    if is_blank(given) {
        Err(CommitError::EmptyBreakingMessage)
    } else {
        Ok(owned(given))
    }
}

/// Appends the footers that are not blank, each on a line of its own.
fn push_footers(m: &mut String, footers: &Vec<String>)
    ensures
        final(m)@ == old(m)@ + footer_lines(strings_view(footers@)),
{
    let ghost start = m@;
    let ghost fs = strings_view(footers@);
    let mut i: usize = 0;
    assert(fs.take(0) =~= Seq::<Seq<char>>::empty());
    while i < footers.len()
        invariant
            i <= footers@.len(),
            fs == strings_view(footers@),
            m@ == start + footer_lines(fs.take(i as int)),
        decreases footers.len() - i,
    {
        let f = &footers[i];
        proof {
            assert(fs.take(i + 1).drop_last() =~= fs.take(i as int));
            assert(fs.take(i + 1).last() == f@);
        }
        if !is_blank(f.as_str()) {
            string_push(m, '\n');
            push_str(m, f.as_str());
        }
        i += 1;
        assert(m@ =~= start + footer_lines(fs.take(i as int)));
    }
    assert(fs.take(footers@.len() as int) =~= fs);
}

/// The header: type, marks, scope and trimmed summary.
fn header_of(commit_type: &str, breaking: bool, scope: &str, summary: &str) -> (m: String)
    ensures
        m@ == commit_header(commit_type@, breaking, scope@, summary@),
{
    let mut m = String::new();
    push_str(&mut m, commit_type);
    let scope_chars = chars_of(scope);
    if scope_chars.len() > 0 {
        string_push(&mut m, '(');
        push_str(&mut m, scope);
        string_push(&mut m, ')');
    }
    if breaking {
        string_push(&mut m, '!');
    }
    string_push(&mut m, ':');
    string_push(&mut m, ' ');
    let s = trimmed(summary);
    push_str(&mut m, s.as_str());
    assert(m@ =~= commit_header(commit_type@, breaking, scope@, summary@));
    m
}

/// Writes the commit message: `type(scope)!: summary`, then the body, the
/// breaking-change footer and the footers that are not blank.
pub fn build_commit_message(
    commit_type: &str,
    breaking: bool,
    scope: &str,
    summary: &str,
    body: &Option<String>,
    breaking_message: &Option<String>,
    footers: &Vec<String>,
) -> (r: String)
    ensures
        r@ == spec_commit_message(
            commit_type@,
            breaking,
            scope@,
            summary@,
            text_opt(*body),
            text_opt(*breaking_message),
            strings_view(footers@),
        ),
{
    let mut m = header_of(commit_type, breaking, scope, summary);
    let ghost header = m@;
    match body {
        Some(b) => {
            string_push(&mut m, '\n');
            string_push(&mut m, '\n');
            let tb = trimmed(b.as_str());
            push_str(&mut m, tb.as_str());
        },
        None => {},
    }
    assert(m@ =~= header + body_part(text_opt(*body)));
    let ghost with_body = m@;
    match breaking_message {
        Some(d) => {
            string_push(&mut m, '\n');
            string_push(&mut m, '\n');
            push_str(&mut m, "BREAKING CHANGE: ");
            proof {
                reveal_strlit("BREAKING CHANGE: ");
            }
            assert("BREAKING CHANGE: "@ =~= breaking_change_label());
            let td = trimmed(d.as_str());
            push_str(&mut m, td.as_str());
        },
        None => {},
    }
    assert(m@ =~= with_body + breaking_part(text_opt(*breaking_message)));
    let ghost before_footers = m@;
    push_footers(&mut m, footers);
    assert(m@ =~= header + message_rest(
        text_opt(*body),
        text_opt(*breaking_message),
        strings_view(footers@),
    ));
    m
}

/// The wizard's message when type and summary both came on the command
/// line, or why it refuses them; `None` when the wizard has to ask.
pub fn non_interactive_message(args: &CommitArgs, types: &StrMap<String>) -> (r: Option<
    Result<String, CommitError>,
>)
    requires
        types.wf(),
    ensures
        match r {
            None => !spec_non_interactive(*args),
            Some(res) => spec_non_interactive(*args) && match spec_non_interactive_message(
                *args,
                types.text_map(),
            ) {
                Ok(m) => res matches Ok(x) && x@ == m,
                Err(e) => res == Err::<String, CommitError>(e),
            },
        },
{
    match (&args.kind, &args.message) {
        (Some(kind), Some(message)) => {
            match check_breaking_flag(args) {
                Err(e) => return Some(Err(e)),
                Ok(()) => {},
            }
            let t = match resolve_commit_type(kind.as_str(), types) {
                Err(e) => return Some(Err(e)),
                Ok(t) => t,
            };
            let summary = match resolve_summary(message.as_str()) {
                Err(e) => return Some(Err(e)),
                Ok(s) => s,
            };
            let none: Option<String> = None;
            proof {
                reveal_strlit("");
            }
            Some(
                Ok(
                    build_commit_message(
                        t.as_str(),
                        args.breaking,
                        "",
                        summary.as_str(),
                        &args.body,
                        &none,
                        &args.footer,
                    ),
                ),
            )
        },
        _ => None,
    }
}

} // verus!
