//! The fix subcommand: which step it runs, and the two editors that the
//! interactive rebase calls back.
use crate::command::commit::text_opt;
use crate::commit::changelog::{has_short_hash, short_hash};
use crate::commit::fix::{CommitFixEntry, CommitFixFile};
use crate::git::commit::{first_index_of, lemma_first_index_of};
use crate::text::{
    byte_prefix_chars, chars_eq, chars_of, has_byte_prefix, has_prefix, lemma_split_nonempty,
    push_chars, slice_chars, split_chars, split_on, starts_with, string_of, string_push,
    trim, trim_chars,
};
use vstd::prelude::*;

verus! {

/// What the user gave on the command line.
pub struct FixArgs {
    /// Skip the prompts and use the default behaviour (fix every commit
    /// automatically).
    pub interactive: bool,
    /// Regenerate the fix file and stop.
    pub regen: bool,
    /// Remove the fix file after fixing.
    pub cleanup: bool,
    /// Run as the message editor of the rebase, on this file.
    pub editor_msg: Option<String>,
    /// Run as the sequence editor of the rebase, on this file.
    pub editor_seq: Option<String>,
}

/// The step that the fix subcommand runs.
pub enum FixAction {
    /// Rewrite the commit message in this file.
    EditMessage(String),
    /// Rewrite the rebase todo list in this file.
    EditSequence(String),
    /// Run the rebase workflow.
    Rebase { interactive: bool, regen: bool, cleanup: bool },
}

/// The step of the rebase workflow, once the invalid commits are known.
pub enum RebaseStep {
    /// Nothing is invalid, so there is no fix file to regenerate.
    NothingToRegenerate,
    /// Nothing is invalid: remove the fix file.
    CleanUp,
    /// Nothing is invalid and nothing else is asked.
    AllValid,
    /// Write a fresh fix file for the invalid commits and stop.
    Regenerate,
    /// Reword the invalid commits: asking first or fixing automatically,
    /// then removing the fix file or not.
    Rewrite { asks: bool, cleanup: bool },
}

// ---------------------------------------------------------------------
// Specification
// ---------------------------------------------------------------------

/// A line without the carriage return of a CRLF line ending.
pub open spec fn strip_cr(l: Seq<char>) -> Seq<char> {
    if l.len() > 0 && l.last() == '\r' {
        l.drop_last()
    } else {
        l
    }
}

/// The lines of a text as `lines()` reads them: split at line feeds, a
/// carriage return before a line feed dropped, no last empty line.
pub open spec fn text_lines(s: Seq<char>) -> Seq<Seq<char>> {
    let ps = split_on(s, '\n');
    let ended = ps.drop_last().map_values(|l: Seq<char>| strip_cr(l));
    if ps.last().len() == 0 {
        ended
    } else {
        ended.push(ps.last())
    }
}

/// `pick ` opens a todo line that picks a commit.
pub open spec fn pick_prefix() -> Seq<char> {
    seq!['p', 'i', 'c', 'k', ' ']
}

/// `reword ` opens a todo line that rewords a commit.
pub open spec fn reword_prefix() -> Seq<char> {
    seq!['r', 'e', 'w', 'o', 'r', 'd', ' ']
}

/// The hash of a pick line: the word after `pick `.
pub open spec fn pick_hash(line: Seq<char>) -> Seq<char> {
    let r = line.skip(5);
    let e = first_index_of(r, ' ', 0);
    if e < 0 {
        r
    } else {
        r.take(e)
    }
}

/// The short hashes (first seven bytes) of the commits to fix.
pub open spec fn fix_short_hashes(fs: Seq<CommitFixEntry>) -> Seq<Seq<char>> {
    fs.map_values(|f: CommitFixEntry| short_hash(f.hash@))
}

/// Every hash that the sequence editor shortens has seven bytes to take.
pub open spec fn todo_sliceable(lines: Seq<Seq<char>>, fs: Seq<CommitFixEntry>) -> bool {
    &&& forall|i: int| 0 <= i < fs.len() ==> has_short_hash(#[trigger] fs[i].hash@)
    &&& forall|j: int|
        0 <= j < lines.len() && starts_with(#[trigger] lines[j], pick_prefix()) ==> has_short_hash(
            pick_hash(lines[j]),
        )
}

/// A pick line of a commit to fix becomes `reword <hash>`; every other
/// line stays.
pub open spec fn reworded(line: Seq<char>, shorts: Seq<Seq<char>>) -> Seq<char> {
    if starts_with(line, pick_prefix()) && shorts.contains(short_hash(pick_hash(line))) {
        reword_prefix() + pick_hash(line)
    } else {
        line
    }
}

/// Each line followed by a line feed.
pub open spec fn concat_lines(ls: Seq<Seq<char>>) -> Seq<char>
    decreases ls.len(),
{
    if ls.len() == 0 {
        Seq::empty()
    } else {
        concat_lines(ls.drop_last()) + ls.last() + seq!['\n']
    }
}

/// The todo list after the sequence editor: the lines joined by line feeds
/// with a last line feed; `None` where a hash is too short to shorten.
pub open spec fn spec_rewrite_todo(content: Seq<char>, fs: Seq<CommitFixEntry>) -> Option<Seq<char>> {
    let ls = text_lines(content);
    if !todo_sliceable(ls, fs) {
        None
    } else {
        let out = ls.map_values(|l: Seq<char>| reworded(l, fix_short_hashes(fs)));
        Some(
            if out.len() == 0 {
                seq!['\n']
            } else {
                concat_lines(out)
            },
        )
    }
}

/// The first line of a text, trimmed (empty for an empty text).
pub open spec fn first_line(s: Seq<char>) -> Seq<char> {
    trim(split_on(s, '\n')[0])
}

/// The new message of the first fix whose trimmed original message is
/// `line`.
pub open spec fn fix_for_line(fs: Seq<CommitFixEntry>, line: Seq<char>) -> Option<Seq<char>>
    decreases fs.len(),
{
    if fs.len() == 0 {
        None
    } else if trim(fs[0].original_message@) == line {
        Some(fs[0].new_message@)
    } else {
        fix_for_line(fs.drop_first(), line)
    }
}

// ---------------------------------------------------------------------
// Executable
// ---------------------------------------------------------------------

/// Chooses the step: the message editor, else the sequence editor, else the
/// rebase workflow.
pub fn run(args: FixArgs) -> (a: FixAction)
    ensures
        a == match args.editor_msg {
            Some(p) => FixAction::EditMessage(p),
            None => match args.editor_seq {
                Some(p) => FixAction::EditSequence(p),
                None => FixAction::Rebase {
                    interactive: args.interactive,
                    regen: args.regen,
                    cleanup: args.cleanup,
                },
            },
        },
{
    let FixArgs { interactive, regen, cleanup, editor_msg, editor_seq } = args;
    match editor_msg {
        Some(p) => FixAction::EditMessage(p),
        None => match editor_seq {
            Some(p) => FixAction::EditSequence(p),
            None => FixAction::Rebase { interactive, regen, cleanup },
        },
    }
}

/// The views of character vectors.
pub open spec fn char_lists(v: Seq<Vec<char>>) -> Seq<Seq<char>> {
    v.map_values(|x: Vec<char>| x@)
}

/// The step of the rebase workflow. With invalid commits: regenerate the
/// fix file when asked, else reword them, asking first unless prompts are
/// skipped. Without: say there is nothing to regenerate, or clean up, or
/// report that all is valid.
pub fn rebase_step(any_invalid: bool, interactive: bool, regen: bool, cleanup: bool) -> (s: RebaseStep)
    ensures
        s == if !any_invalid {
            if regen {
                RebaseStep::NothingToRegenerate
            } else if cleanup {
                RebaseStep::CleanUp
            } else {
                RebaseStep::AllValid
            }
        } else if regen {
            RebaseStep::Regenerate
        } else {
            RebaseStep::Rewrite { asks: !interactive, cleanup }
        },
{
    if !any_invalid {
        if regen {
            RebaseStep::NothingToRegenerate
        } else if cleanup {
            RebaseStep::CleanUp
        } else {
            RebaseStep::AllValid
        }
    } else if regen {
        RebaseStep::Regenerate
    } else {
        RebaseStep::Rewrite { asks: !interactive, cleanup }
    }
}

/// The lines of `v`, as `lines()` reads them.
fn lines_of(v: &[char]) -> (r: Vec<Vec<char>>)
    ensures
        char_lists(r@) == text_lines(v@),
{
    let pieces = split_chars(v, '\n');
    let ghost ps = split_on(v@, '\n');
    proof {
        lemma_split_nonempty(v@, '\n', Seq::empty());
    }
    let n = pieces.len();
    let mut r: Vec<Vec<char>> = Vec::new();
    let mut i: usize = 0;
    while i + 1 < n
        invariant
            0 < n == ps.len() == pieces@.len(),
            i < n,
            forall|j: int| 0 <= j < pieces@.len() ==> #[trigger] pieces@[j]@ == ps[j],
            char_lists(r@) == ps.take(i as int).map_values(|l: Seq<char>| strip_cr(l)),
        decreases n - i,
    {
        let p = &pieces[i];
        let k = p.len();
        let line = if k > 0 && p[k - 1] == '\r' {
            let l = slice_chars(p.as_slice(), 0, k - 1);
            assert(l@ =~= p@.drop_last());
            l
        } else {
            let l = slice_chars(p.as_slice(), 0, k);
            assert(l@ =~= p@);
            l
        };
        assert(line@ == strip_cr(ps[i as int]));
        let ghost prev = char_lists(r@);
        r.push(line);
        assert(char_lists(r@) =~= prev.push(strip_cr(ps[i as int])));
        assert(ps.take(i + 1).map_values(|l: Seq<char>| strip_cr(l)) =~= ps.take(
            i as int,
        ).map_values(|l: Seq<char>| strip_cr(l)).push(strip_cr(ps[i as int])));
        i += 1;
        assert(char_lists(r@) =~= ps.take(i as int).map_values(|l: Seq<char>| strip_cr(l)));
    }
    assert(ps.take(i as int) == ps.drop_last());
    if pieces[n - 1].len() > 0 {
        let last = slice_chars(pieces[n - 1].as_slice(), 0, pieces[n - 1].len());
        assert(last@ == ps.last());
        r.push(last);
    }
    assert(char_lists(r@) =~= text_lines(v@));
    r
}

/// Whether `v` is one of `vs`.
fn chars_listed(vs: &Vec<Vec<char>>, v: &[char]) -> (b: bool)
    ensures
        b == char_lists(vs@).contains(v@),
{
    let mut i: usize = 0;
    while i < vs.len()
        invariant
            i <= vs@.len(),
            forall|j: int| 0 <= j < i ==> vs@[j]@ != v@,
        decreases vs.len() - i,
    {
        if chars_eq(vs[i].as_slice(), v) {
            assert(char_lists(vs@)[i as int] == v@);
            return true;
        }
        i += 1;
    }
    proof {
        if char_lists(vs@).contains(v@) {
            let j = choose|j: int| 0 <= j < char_lists(vs@).len() && char_lists(vs@)[j] == v@;
            assert(vs@[j]@ == char_lists(vs@)[j]);
        }
    }
    false
}

/// The sequence editor: turns the pick lines of the commits to fix into
/// reword lines; `None` where a hash has no seven-byte prefix (slicing it
/// would panic).
pub fn rewrite_todo(content: &str, fixes: &CommitFixFile) -> (r: Option<String>)
    ensures
        text_opt(r) == spec_rewrite_todo(content@, fixes.fixes@),
{
    let ghost fs = fixes.fixes@;
    let mut shorts: Vec<Vec<char>> = Vec::new();
    let mut i: usize = 0;
    while i < fixes.fixes.len()
        invariant
            i <= fs.len(),
            fs == fixes.fixes@,
            char_lists(shorts@) == fix_short_hashes(fs).take(i as int),
            forall|j: int| 0 <= j < i ==> has_short_hash(#[trigger] fs[j].hash@),
        decreases fs.len() - i,
    {
        let h = chars_of(fixes.fixes[i].hash.as_str());
        assert(fs[i as int].hash@ == h@);
        if !has_byte_prefix(h.as_slice(), 7) {
            assert(!todo_sliceable(text_lines(content@), fs));
            return None;
        }
        let ghost prev = char_lists(shorts@);
        let sh = byte_prefix_chars(h.as_slice(), 7);
        shorts.push(sh);
        assert(char_lists(shorts@) =~= prev.push(short_hash(fs[i as int].hash@)));
        i += 1;
        assert(char_lists(shorts@) =~= fix_short_hashes(fs).take(i as int));
    }
    assert(fix_short_hashes(fs).take(i as int) =~= fix_short_hashes(fs));
    let lines = lines_of(chars_of(content).as_slice());
    let ghost ls = text_lines(content@);
    let ghost shs = fix_short_hashes(fs);
    let pick: Vec<char> = vec!['p', 'i', 'c', 'k', ' '];
    assert(pick@ =~= pick_prefix());
    let mut out = String::new();
    let mut k: usize = 0;
    while k < lines.len()
        invariant
            k <= ls.len(),
            ls == char_lists(lines@),
            ls == text_lines(content@),
            fs == fixes.fixes@,
            shs == char_lists(shorts@),
            pick@ == pick_prefix(),
            forall|j: int| 0 <= j < fs.len() ==> has_short_hash(#[trigger] fs[j].hash@),
            forall|j: int|
                0 <= j < k && starts_with(#[trigger] ls[j], pick_prefix()) ==> has_short_hash(
                    pick_hash(ls[j]),
                ),
            out@ == concat_lines(ls.take(k as int).map_values(|l: Seq<char>| reworded(l, shs))),
        decreases ls.len() - k,
    {
        let line = &lines[k];
        assert(line@ == ls[k as int]);
        let ghost before = out@;
        if has_prefix(line.as_slice(), pick.as_slice()) {
            let n = line.len();
            let mut e: usize = 5;
            while e < n && line[e] != ' '
                invariant
                    5 <= e <= n == line@.len(),
                    forall|q: int| 5 <= q < e ==> line@[q] != ' ',
                decreases n - e,
            {
                e += 1;
            }
            let hash = slice_chars(line.as_slice(), 5, e);
            proof {
                let rr = line@.skip(5);
                assert forall|q: int| 0 <= q < e - 5 implies rr[q] != ' ' by {
                    assert(rr[q] == line@[q + 5]);
                }
                if e < n {
                    assert(rr[e - 5] == line@[e as int]);
                }
                lemma_first_index_of(rr, ' ', 0, e - 5);
                if e < n {
                    assert(rr.take(e - 5) =~= hash@);
                } else {
                    assert(rr =~= hash@);
                }
                assert(hash@ == pick_hash(line@));
            }
            if !has_byte_prefix(hash.as_slice(), 7) {
                assert(!todo_sliceable(ls, fs));
                return None;
            }
            let short = byte_prefix_chars(hash.as_slice(), 7);
            if chars_listed(&shorts, short.as_slice()) {
                string_push(&mut out, 'r');
                string_push(&mut out, 'e');
                string_push(&mut out, 'w');
                string_push(&mut out, 'o');
                string_push(&mut out, 'r');
                string_push(&mut out, 'd');
                string_push(&mut out, ' ');
                push_chars(&mut out, hash.as_slice());
                assert(out@ =~= before + reworded(line@, shs));
            } else {
                push_chars(&mut out, line.as_slice());
            }
        } else {
            push_chars(&mut out, line.as_slice());
        }
        string_push(&mut out, '\n');
        proof {
            let prev = ls.take(k as int).map_values(|l: Seq<char>| reworded(l, shs));
            let next = ls.take(k + 1).map_values(|l: Seq<char>| reworded(l, shs));
            assert(next.drop_last() =~= prev);
            assert(next.last() == reworded(ls[k as int], shs));
            assert(out@ =~= concat_lines(next));
        }
        k += 1;
    }
    assert(ls.take(k as int) =~= ls);
    if lines.len() == 0 {
        string_push(&mut out, '\n');
        assert(out@ =~= seq!['\n']);
    }
    Some(out)
}

/// The message editor: the new message of the first fix whose original
/// message is the first line of the current message, trimmed.
pub fn message_for_edit(content: &str, fixes: &CommitFixFile) -> (r: Option<String>)
    ensures
        text_opt(r) == fix_for_line(fixes.fixes@, first_line(content@)),
{
    let pieces = split_chars(chars_of(content).as_slice(), '\n');
    proof {
        lemma_split_nonempty(content@, '\n', Seq::empty());
    }
    let line = trim_chars(pieces[0].as_slice());
    let ghost fs = fixes.fixes@;
    let mut i: usize = 0;
    assert(fs.skip(0) =~= fs);
    while i < fixes.fixes.len()
        invariant
            i <= fs.len(),
            fs == fixes.fixes@,
            line@ == first_line(content@),
            fix_for_line(fs, line@) == fix_for_line(fs.skip(i as int), line@),
        decreases fs.len() - i,
    {
        let f = &fixes.fixes[i];
        let o = trim_chars(chars_of(f.original_message.as_str()).as_slice());
        assert(fs.skip(i as int)[0] == fs[i as int]);
        assert(fs.skip(i as int).drop_first() =~= fs.skip(i + 1));
        if chars_eq(o.as_slice(), line.as_slice()) {
            let m = string_of(chars_of(f.new_message.as_str()).as_slice());
            return Some(m);
        }
        i += 1;
    }
    None
}


/// The todo list that the sequence editor writes, line by line: every pick
/// line whose hash has the seven-byte prefix of the hash of some entry of
/// the fix file becomes `reword <hash>`; every other line is kept. The
/// lines end with line feeds; an empty list gives one line feed.
pub proof fn lemma_todo_rewords_every_fix(content: Seq<char>, fs: Seq<CommitFixEntry>)
    requires
        todo_sliceable(text_lines(content), fs),
    ensures
        spec_rewrite_todo(content, fs) == Some(
            if text_lines(content).len() == 0 {
                seq!['\n']
            } else {
                concat_lines(
                    Seq::new(
                        text_lines(content).len(),
                        |j: int|
                            if starts_with(text_lines(content)[j], seq!['p', 'i', 'c', 'k', ' '])
                                && exists|k: int|
                                0 <= k < fs.len() && short_hash(#[trigger] fs[k].hash@) == short_hash(
                                    pick_hash(text_lines(content)[j]),
                                ) {
                                seq!['r', 'e', 'w', 'o', 'r', 'd', ' '] + pick_hash(
                                    text_lines(content)[j],
                                )
                            } else {
                                text_lines(content)[j]
                            },
                    ),
                )
            },
        ),
{
    let ls = text_lines(content);
    let shs = fix_short_hashes(fs);
    assert forall|x: Seq<char>| shs.contains(x) <==> exists|k: int|
        0 <= k < fs.len() && short_hash(#[trigger] fs[k].hash@) == x by {
        if shs.contains(x) {
            let k = choose|k: int| 0 <= k < shs.len() && shs[k] == x;
            assert(short_hash(fs[k].hash@) == x);
        }
        if exists|k: int| 0 <= k < fs.len() && short_hash(#[trigger] fs[k].hash@) == x {
            let k = choose|k: int| 0 <= k < fs.len() && short_hash(#[trigger] fs[k].hash@) == x;
            assert(shs[k] == x);
        }
    }
    let out = ls.map_values(|l: Seq<char>| reworded(l, shs));
    let want = Seq::new(
        ls.len(),
        |j: int|
            if starts_with(ls[j], seq!['p', 'i', 'c', 'k', ' ']) && exists|k: int|
                0 <= k < fs.len() && short_hash(#[trigger] fs[k].hash@) == short_hash(
                    pick_hash(ls[j]),
                ) {
                seq!['r', 'e', 'w', 'o', 'r', 'd', ' '] + pick_hash(ls[j])
            } else {
                ls[j]
            },
    );
    assert(pick_prefix() =~= seq!['p', 'i', 'c', 'k', ' ']);
    assert(reword_prefix() =~= seq!['r', 'e', 'w', 'o', 'r', 'd', ' ']);
    assert forall|j: int| 0 <= j < ls.len() implies out[j] == want[j] by {
        assert(shs.contains(short_hash(pick_hash(ls[j]))) <==> exists|k: int|
            0 <= k < fs.len() && short_hash(#[trigger] fs[k].hash@) == short_hash(pick_hash(ls[j])));
    }
    assert(out =~= want);
}

} // verus!
