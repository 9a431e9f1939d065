//! The add subcommand: which files it offers and what it stages.
use crate::text::{owned, strings_contain, strings_view};
use vstd::prelude::*;

verus! {

/// What the user gave on the command line.
pub struct AddArgs {
    /// Stage every file.
    pub all: bool,
    /// Offer only the files that are not staged.
    pub exclude_staged: bool,
}

/// A change to the index.
pub enum StageChange {
    Stage(String),
    Unstage(String),
}

/// A change as (whether it stages, path).
pub open spec fn change_view(c: StageChange) -> (bool, Seq<char>) {
    match c {
        StageChange::Stage(p) => (true, p@),
        StageChange::Unstage(p) => (false, p@),
    }
}

/// The files that are not staged, in order.
pub open spec fn unstaged_files(fs: Seq<Seq<char>>, staged: Seq<Seq<char>>) -> Seq<Seq<char>>
    decreases fs.len(),
{
    if fs.len() == 0 {
        Seq::empty()
    } else {
        let rest = unstaged_files(fs.drop_last(), staged);
        if staged.contains(fs.last()) {
            rest
        } else {
            rest.push(fs.last())
        }
    }
}

/// In the order of the files: stage what is selected and not staged,
/// unstage what is staged and not selected.
pub open spec fn staging_plan(fs: Seq<Seq<char>>, selected: Seq<Seq<char>>, staged: Seq<Seq<char>>) -> Seq<
    (bool, Seq<char>),
>
    decreases fs.len(),
{
    if fs.len() == 0 {
        Seq::empty()
    } else {
        let rest = staging_plan(fs.drop_last(), selected, staged);
        let f = fs.last();
        if selected.contains(f) && !staged.contains(f) {
            rest.push((true, f))
        } else if !selected.contains(f) && staged.contains(f) {
            rest.push((false, f))
        } else {
            rest
        }
    }
}

/// The files that are not staged.
pub fn unstaged_only(files: &Vec<String>, staged: &Vec<String>) -> (r: Vec<String>)
    ensures
        strings_view(r@) == unstaged_files(strings_view(files@), strings_view(staged@)),
{
    let ghost fs = strings_view(files@);
    let mut r: Vec<String> = Vec::new();
    let mut i: usize = 0;
    assert(fs.take(0) =~= Seq::<Seq<char>>::empty());
    while i < files.len()
        invariant
            i <= files@.len(),
            fs == strings_view(files@),
            strings_view(r@) == unstaged_files(fs.take(i as int), strings_view(staged@)),
        decreases files.len() - i,
    {
        let f = &files[i];
        proof {
            assert(fs.take(i + 1).drop_last() =~= fs.take(i as int));
            assert(fs.take(i + 1).last() == f@);
        }
        if !strings_contain(staged, f.as_str()) {
            let ghost before = strings_view(r@);
            r.push(owned(f.as_str()));
            assert(strings_view(r@) =~= before.push(f@));
        }
        i += 1;
    }
    assert(fs.take(fs.len() as int) =~= fs);
    r
}

/// The changes to the index that make the staged files the selected ones.
pub fn staging_changes(files: &Vec<String>, selected: &Vec<String>, staged: &Vec<String>) -> (r: Vec<
    StageChange,
>)
    ensures
        r@.map_values(|c: StageChange| change_view(c)) == staging_plan(
            strings_view(files@),
            strings_view(selected@),
            strings_view(staged@),
        ),
{
    let ghost fs = strings_view(files@);
    let ghost sel = strings_view(selected@);
    let ghost st = strings_view(staged@);
    let mut r: Vec<StageChange> = Vec::new();
    let mut i: usize = 0;
    assert(fs.take(0) =~= Seq::<Seq<char>>::empty());
    assert(r@.map_values(|c: StageChange| change_view(c)) =~= staging_plan(fs.take(0), sel, st));
    while i < files.len()
        invariant
            i <= files@.len(),
            fs == strings_view(files@),
            sel == strings_view(selected@),
            st == strings_view(staged@),
            r@.map_values(|c: StageChange| change_view(c)) == staging_plan(fs.take(i as int), sel, st),
        decreases files.len() - i,
    {
        let f = &files[i];
        proof {
            assert(fs.take(i + 1).drop_last() =~= fs.take(i as int));
            assert(fs.take(i + 1).last() == f@);
        }
        let is_selected = strings_contain(selected, f.as_str());
        let is_staged = strings_contain(staged, f.as_str());
        let ghost before = r@.map_values(|c: StageChange| change_view(c));
        if is_selected && !is_staged {
            r.push(StageChange::Stage(owned(f.as_str())));
            assert(r@.map_values(|c: StageChange| change_view(c)) =~= before.push((true, f@)));
        } else if !is_selected && is_staged {
            r.push(StageChange::Unstage(owned(f.as_str())));
            assert(r@.map_values(|c: StageChange| change_view(c)) =~= before.push((false, f@)));
        }
        i += 1;
    }
    assert(fs.take(fs.len() as int) =~= fs);
    r
}

} // verus!
