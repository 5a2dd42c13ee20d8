//! Oids that are looked up on first use.
//!
//! Most queries are turned away by cheap structural checks, before the
//! catalog lookups are paid for.

use once_cell::unsync::OnceCell;
use vstd::prelude::*;

use crate::catalog::TopNOids;

verus! {

/// `once_cell::unsync::OnceCell`, a container of at most one value.
#[verifier::external_type_specification]
#[verifier::external_body]
#[verifier::reject_recursive_types(T)]
pub struct ExOnceCell<T>(OnceCell<T>);

/// What a cell holds; `None` if it is empty.
pub uninterp spec fn cell_value(cell: OnceCell<Option<TopNOids>>) -> Option<Option<TopNOids>>;

/// `OnceCell::new`: the new cell is empty.
#[verifier::external_body]
fn cell_new() -> (cell: OnceCell<Option<TopNOids>>)
    ensures
        cell_value(cell) is None,
{
    OnceCell::new()
}

/// `OnceCell::get`: hands out what the cell holds, here as a copy, or `None`
/// if the cell is empty.
#[verifier::external_body]
fn cell_get(cell: &OnceCell<Option<TopNOids>>) -> (value: Option<Option<TopNOids>>)
    ensures
        value == cell_value(*cell),
{
    cell.get().copied()
}

/// `OnceCell::set`: fills an empty cell with the value; a full cell stays as
/// it is, and the value is handed back. The cell is borrowed mutably, although
/// `set` itself does not ask for that, so that what a shared cell holds does
/// not change.
#[verifier::external_body]
fn cell_set(cell: &mut OnceCell<Option<TopNOids>>, value: Option<TopNOids>) -> (done: Result<
    (),
    Option<TopNOids>,
>)
    ensures
        match cell_value(*old(cell)) {
            None => cell_value(*final(cell)) == Some(value) && done == Ok::<
                (),
                Option<TopNOids>,
            >(()),
            Some(held) => cell_value(*final(cell)) == Some(held) && done == Err::<
                (),
                Option<TopNOids>,
            >(value),
        },
{
    cell.set(value)
}

/// Oids that a lookup finds, or fails to find, when they are first asked for.
pub struct LazyOids<F> {
    cell: OnceCell<Option<TopNOids>>,
    init: Option<F>,
    source: Ghost<F>,
}

impl<F: FnOnce() -> Option<TopNOids>> LazyOids<F> {
    /// What the lookup found; `None` if it has not run.
    pub closed spec fn value(self) -> Option<Option<TopNOids>> {
        cell_value(self.cell)
    }

    /// The lookup.
    pub closed spec fn lookup(self) -> F {
        self.source@
    }

    /// Either the lookup has yet to run, or what it returned is held.
    pub closed spec fn well_formed(self) -> bool {
        match self.value() {
            None => self.init == Some(self.lookup()),
            Some(found) => self.lookup().ensures((), found),
        }
    }

    /// What has been found was found by the lookup.
    pub proof fn lemma_found_by_lookup(self)
        requires
            self.well_formed(),
            self.value() is Some,
        ensures
            self.lookup().ensures((), self.value()->0),
    {
    }

    /// Oids that have not been looked up.
    pub fn new(lookup: F) -> (lazy: Self)
        ensures
            lazy.well_formed(),
            lazy.value() is None,
            lazy.lookup() == lookup,
    {
        let ghost source = lookup;
        LazyOids { cell: cell_new(), init: Some(lookup), source: Ghost(source) }
    }

    /// The oids, looked up now if they have not been before.
    pub fn force(&mut self) -> (found: Option<TopNOids>)
        requires
            old(self).well_formed(),
            old(self).value() is None ==> old(self).lookup().requires(()),
        ensures
            final(self).well_formed(),
            final(self).lookup() == old(self).lookup(),
            final(self).value() == Some(found),
            old(self).value() is Some ==> old(self).value() == Some(found),
    {
        if let Some(found) = cell_get(&self.cell) {
            return found;
        }
        match self.init.take() {
            Some(lookup) => {
                let found = lookup();
                let _ = cell_set(&mut self.cell, found);
                found
            },
            None => None,
        }
    }
}

} // verus!
