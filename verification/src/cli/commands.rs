//! What the commands decide: which dependencies fall in which class of
//! update, what a batch of edits does to the manifest, which conflicts can
//! be acted on.

use crate::analyzer::conflicts::{Conflict, ConflictReport};
use crate::model::dependency::{classify_update, Dependency, UpdateType};
use crate::model::version::{model_of, version_text};
use crate::text::str_equal;
use crate::updater::update::{DependencyUpdater, with_version, without_declaration};
use vstd::prelude::*;

verus! {

/// What became of one edit of a batch.
#[derive(Debug, Clone, Copy, PartialEq, Eq, Structural)]
pub enum EditOutcome {
    /// The manifest text was changed.
    Applied,
    /// The manifest does not declare the dependency; the text stayed.
    NotFound,
    /// No newer version is known; nothing was tried.
    Skipped,
}

/// The update class of the dependency `d`.
pub open spec fn update_class(d: Dependency) -> UpdateType {
    classify_update(d.current_version@, model_of(d.latest_version))
}

/// The indices of those of `deps` whose update class is `class`, rising.
pub open spec fn indices_of_class(deps: Seq<Dependency>, class: UpdateType) -> Seq<usize>
    decreases deps.len(),
{
    if deps.len() == 0 {
        Seq::empty()
    } else {
        let rest = indices_of_class(deps.drop_last(), class);
        if update_class(deps.last()) == class {
            rest.push((deps.len() - 1) as usize)
        } else {
            rest
        }
    }
}

/// The indices of those of `deps` that an update is open to, rising.
pub open spec fn indices_with_update(deps: Seq<Dependency>) -> Seq<usize>
    decreases deps.len(),
{
    if deps.len() == 0 {
        Seq::empty()
    } else {
        let rest = indices_with_update(deps.drop_last());
        if update_class(deps.last()) != UpdateType::UpToDate {
            rest.push((deps.len() - 1) as usize)
        } else {
            rest
        }
    }
}

/// The manifest text after the updates of `to_update` were tried in order:
/// each dependency with a newer version known is put at that version; one
/// that the text does not declare leaves it as it is.
pub open spec fn text_after_updates(text: Seq<char>, to_update: Seq<Dependency>) -> Seq<char>
    decreases to_update.len(),
{
    if to_update.len() == 0 {
        text
    } else {
        let before = text_after_updates(text, to_update.drop_last());
        match update_outcome(before, to_update.last()) {
            EditOutcome::Applied => with_version(
                before,
                to_update.last().name@,
                version_text(to_update.last().latest_version.unwrap()@),
            ).unwrap(),
            _ => before,
        }
    }
}

/// What the update of `d` does on the manifest text `text`.
pub open spec fn update_outcome(text: Seq<char>, d: Dependency) -> EditOutcome {
    match d.latest_version {
        None => EditOutcome::Skipped,
        Some(latest) => match with_version(text, d.name@, version_text(latest@)) {
            Some(_) => EditOutcome::Applied,
            None => EditOutcome::NotFound,
        },
    }
}

/// What became of each update of `to_update`, tried in order on `text`.
pub open spec fn update_outcomes(text: Seq<char>, to_update: Seq<Dependency>) -> Seq<EditOutcome>
    decreases to_update.len(),
{
    if to_update.len() == 0 {
        Seq::empty()
    } else {
        update_outcomes(text, to_update.drop_last()).push(
            update_outcome(text_after_updates(text, to_update.drop_last()), to_update.last()),
        )
    }
}

/// The manifest text after the removals of `names` were tried in order; a
/// name that the text does not declare leaves it as it is.
pub open spec fn text_after_removals(text: Seq<char>, names: Seq<Seq<char>>) -> Seq<char>
    decreases names.len(),
{
    if names.len() == 0 {
        text
    } else {
        let before = text_after_removals(text, names.drop_last());
        match without_declaration(before, names.last()) {
            Some(t) => t,
            None => before,
        }
    }
}

/// What became of each removal of `names`, tried in order on `text`.
pub open spec fn removal_outcomes(text: Seq<char>, names: Seq<Seq<char>>) -> Seq<EditOutcome>
    decreases names.len(),
{
    if names.len() == 0 {
        Seq::empty()
    } else {
        let before = text_after_removals(text, names.drop_last());
        removal_outcomes(text, names.drop_last()).push(
            if without_declaration(before, names.last()) is Some {
                EditOutcome::Applied
            } else {
                EditOutcome::NotFound
            },
        )
    }
}

/// The names of those of `conflicts` that have a version to settle on, in order.
pub open spec fn fixable_names(conflicts: Seq<Conflict>) -> Seq<Seq<char>>
    decreases conflicts.len(),
{
    if conflicts.len() == 0 {
        Seq::empty()
    } else {
        let rest = fixable_names(conflicts.drop_last());
        if conflicts.last().suggested_version is Some {
            rest.push(conflicts.last().package_name@)
        } else {
            rest
        }
    }
}

/// The arguments without the name of the subcommand under which the host
/// tool starts this one: where `sane` is the second argument, it is left out.
pub open spec fn arguments_proper(args: Seq<Seq<char>>) -> Seq<Seq<char>> {
    if args.len() > 1 && args[1] == "sane"@ {
        args.remove(1)
    } else {
        args
    }
}

/// The indices of the dependencies whose update class is `class`, rising.
pub fn dependencies_of_class(deps: &Vec<Dependency>, class: UpdateType) -> (r: Vec<usize>)
    ensures
        r@ == indices_of_class(deps@, class),
{
    let mut r: Vec<usize> = Vec::new();
    let mut i: usize = 0;
    assert(deps@.take(0) =~= Seq::<Dependency>::empty());
    while i < deps.len()
        invariant
            i <= deps.len(),
            r@ == indices_of_class(deps@.take(i as int), class),
        decreases deps.len() - i,
    {
        proof {
            assert(deps@.take(i + 1).drop_last() =~= deps@.take(i as int));
        }
        if deps[i].update_type() == class {
            r.push(i);
        }
        i += 1;
    }
    assert(deps@.take(deps.len() as int) =~= deps@);
    r
}

/// The indices of the dependencies that an update is open to, rising.
pub fn dependencies_with_update(deps: &Vec<Dependency>) -> (r: Vec<usize>)
    ensures
        r@ == indices_with_update(deps@),
{
    let mut r: Vec<usize> = Vec::new();
    let mut i: usize = 0;
    assert(deps@.take(0) =~= Seq::<Dependency>::empty());
    while i < deps.len()
        invariant
            i <= deps.len(),
            r@ == indices_with_update(deps@.take(i as int)),
        decreases deps.len() - i,
    {
        proof {
            assert(deps@.take(i + 1).drop_last() =~= deps@.take(i as int));
        }
        if deps[i].has_update() {
            r.push(i);
        }
        i += 1;
    }
    assert(deps@.take(deps.len() as int) =~= deps@);
    r
}

/// Puts each of `to_update` at its newest version in the manifest text,
/// in order. A dependency that the text does not declare is reported and
/// the batch goes on with the next.
pub fn apply_updates(updater: &mut DependencyUpdater, to_update: &Vec<Dependency>) -> (r: Vec<
    EditOutcome,
>)
    ensures
        final(updater).path() == old(updater).path(),
        final(updater).content() == text_after_updates(old(updater).content(), to_update@),
        r@ == update_outcomes(old(updater).content(), to_update@),
{
    let ghost start = updater.content();
    let mut outcomes: Vec<EditOutcome> = Vec::new();
    let mut i: usize = 0;
    assert(to_update@.take(0) =~= Seq::<Dependency>::empty());
    while i < to_update.len()
        invariant
            i <= to_update.len(),
            updater.path() == old(updater).path(),
            start == old(updater).content(),
            updater.content() == text_after_updates(start, to_update@.take(i as int)),
            outcomes@ == update_outcomes(start, to_update@.take(i as int)),
        decreases to_update.len() - i,
    {
        proof {
            assert(to_update@.take(i + 1).drop_last() =~= to_update@.take(i as int));
        }
        let dep = &to_update[i];
        let outcome = match &dep.latest_version {
            None => EditOutcome::Skipped,
            Some(latest) => {
                let version = latest.to_text();
                match updater.update_dependency(dep, version.as_str()) {
                    Ok(()) => EditOutcome::Applied,
                    Err(_) => EditOutcome::NotFound,
                }
            },
        };
        outcomes.push(outcome);
        i += 1;
    }
    assert(to_update@.take(to_update.len() as int) =~= to_update@);
    outcomes
}

/// Takes the declaration of each of `names` out of the manifest text, in
/// order. A name that the text does not declare is reported and the batch
/// goes on with the next.
pub fn apply_removals(updater: &mut DependencyUpdater, names: &Vec<String>) -> (r: Vec<EditOutcome>)
    ensures
        final(updater).path() == old(updater).path(),
        final(updater).content() == text_after_removals(
            old(updater).content(),
            names.deep_view(),
        ),
        r@ == removal_outcomes(old(updater).content(), names.deep_view()),
{
    let ghost start = updater.content();
    let ghost all = names.deep_view();
    let mut outcomes: Vec<EditOutcome> = Vec::new();
    let mut i: usize = 0;
    assert(all.take(0) =~= Seq::<Seq<char>>::empty());
    while i < names.len()
        invariant
            i <= names.len(),
            all == names.deep_view(),
            updater.path() == old(updater).path(),
            start == old(updater).content(),
            updater.content() == text_after_removals(start, all.take(i as int)),
            outcomes@ == removal_outcomes(start, all.take(i as int)),
        decreases names.len() - i,
    {
        proof {
            assert(all.take(i + 1).drop_last() =~= all.take(i as int));
            assert(all.take(i + 1).last() == names@[i as int]@);
        }
        let outcome = match updater.remove_dependency(names[i].as_str()) {
            Ok(()) => EditOutcome::Applied,
            Err(_) => EditOutcome::NotFound,
        };
        outcomes.push(outcome);
        i += 1;
    }
    assert(all.take(names.len() as int) =~= all);
    outcomes
}

/// The packages in conflict that have a version to settle on, in the
/// order of the report: those that an update of the lock file is tried for.
pub fn fixable_packages(report: &ConflictReport) -> (r: Vec<String>)
    ensures
        r.deep_view() == fixable_names(report.conflicts@),
{
    let mut r: Vec<String> = Vec::new();
    let mut i: usize = 0;
    let ghost all = report.conflicts@;
    assert(all.take(0) =~= Seq::<Conflict>::empty());
    assert(r.deep_view() =~= Seq::<Seq<char>>::empty());
    while i < report.conflicts.len()
        invariant
            i <= report.conflicts.len(),
            all == report.conflicts@,
            r.deep_view() == fixable_names(all.take(i as int)),
        decreases report.conflicts.len() - i,
    {
        let ghost before = r.deep_view();
        proof {
            assert(all.take(i + 1).drop_last() =~= all.take(i as int));
        }
        if report.conflicts[i].suggested_version.is_some() {
            r.push(report.conflicts[i].package_name.clone());
            assert(r.deep_view() =~= before.push(all[i as int].package_name@));
        }
        i += 1;
    }
    assert(all.take(report.conflicts.len() as int) =~= all);
    r
}

/// The arguments as the commands read them. The host tool hands its own
/// subcommand name on as the second argument; it is left out.
pub fn command_arguments(args: Vec<String>) -> (r: Vec<String>)
    ensures
        r.deep_view() == arguments_proper(args.deep_view()),
{
    let mut args = args;
    let ghost before = args.deep_view();
    if args.len() > 1 && str_equal(args[1].as_str(), "sane") {
        args.remove(1);
        assert(args.deep_view() =~= before.remove(1));
    }
    args
}

} // verus!
