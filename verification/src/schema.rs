//! The query/mutation surface.
//!
//! The surface groups the store operations into a read set and a write
//! set, translates textual identifiers into the internal 128-bit form, and
//! turns store results into typed responses or errors. A malformed
//! identifier is reported as a typed error rather than aborting the
//! request, and a delete of an absent task is no error: it answers
//! `false`.

use vstd::prelude::*;

use crate::ids;
use crate::ids::parsed_uuid;
use crate::task::Task;
use crate::task::TaskStore;
use crate::task::StoreError;
use crate::task::find_task;
use crate::task::has_id;
use crate::task::opt_text;
use crate::task::roots_of;
use crate::task::views_of;
use crate::task::without_id;

verus! {

/// An error the surface reports to its caller.
#[derive(Debug)]
pub enum ApiError {
    /// The given string is not a well-formed identifier; carries that
    /// string.
    InvalidId(String),
    /// No task carries the given identifier; carries the identifier's
    /// text.
    NotFound(String),
    /// The store refused the insert: the drawn identifier is already
    /// taken.
    Conflict,
}

/// What the optional parent string parses to: nothing when it is present
/// and malformed, otherwise the optional identifier.
pub open spec fn parsed_parent(p: Option<String>) -> Option<Option<u128>> {
    match p {
        None => Some(None),
        Some(s) => match parsed_uuid(s@) {
            Some(u) => Some(Some(u)),
            None => None,
        },
    }
}

/// The read operations over tasks.
pub struct TaskQuery;

impl TaskQuery {
    /// All root tasks, in store order.
    pub fn roots(store: &TaskStore) -> (r: Vec<Task>)
        ensures
            views_of(r@) == roots_of(store@),
    {
        Task::get_roots(store)
    }

    /// The task whose identifier has the given text. A malformed string is
    /// a typed `InvalidId` error; a well-formed identifier that no row
    /// carries is a typed `NotFound` error; both carry the given string.
    pub fn one(store: &TaskStore, id: String) -> (r: Result<Task, ApiError>)
        requires
            store.wf(),
        ensures
            match r {
                Ok(t) => parsed_uuid(id@) matches Some(u) && find_task(store@, u) == Some(t@),
                Err(e) => match e {
                    ApiError::InvalidId(s) => s@ == id@ && parsed_uuid(id@) is None,
                    ApiError::NotFound(s) => s@ == id@ && (parsed_uuid(id@) matches Some(u)
                        && !has_id(store@, u)),
                    ApiError::Conflict => false,
                },
            },
    {
        match ids::parse_id(id.as_str()) {
            None => Err(ApiError::InvalidId(id)),
            Some(u) => match Task::get_one(store, u) {
                Some(t) => Ok(t),
                None => Err(ApiError::NotFound(id)),
            },
        }
    }
}

/// The write operations over tasks.
pub struct TaskMutation;

impl TaskMutation {
    /// Creates a task, parsing the optional textual parent identifier
    /// first. A present but malformed parent string is a typed `InvalidId`
    /// error carrying it; `Conflict` reports the store's refusal of the
    /// drawn identifier. The store is unchanged on any error.
    pub fn create(
        store: &mut TaskStore,
        title: String,
        description: Option<String>,
        parent_id: Option<String>,
    ) -> (r: Result<Task, ApiError>)
        requires
            old(store).wf(),
        ensures
            final(store).wf(),
            match r {
                Ok(t) => {
                    &&& parsed_parent(parent_id) == Some(t@.parent_id)
                    &&& t@.title == title@
                    &&& t@.description == opt_text(description)
                    &&& !has_id(old(store)@, t@.id)
                    &&& final(store)@ == old(store)@.push(t@)
                    &&& find_task(final(store)@, t@.id) == Some(t@)
                },
                Err(e) => final(store)@ == old(store)@ && match e {
                    ApiError::InvalidId(s) => parent_id matches Some(p) && s@ == p@ && parsed_uuid(
                        p@,
                    ) is None,
                    ApiError::NotFound(_) => false,
                    ApiError::Conflict => parsed_parent(parent_id) is Some && old(store)@.len()
                        > 0,
                },
            },
    {
        let pid: Option<u128> = match parent_id {
            None => None,
            Some(p) => match ids::parse_id(p.as_str()) {
                Some(u) => Some(u),
                None => {
                    return Err(ApiError::InvalidId(p));
                },
            },
        };
        match Task::create(store, title, description, pid) {
            Ok(t) => Ok(t),
            Err(StoreError::IdConflict) => Err(ApiError::Conflict),
        }
    }

    /// Deletes the task whose identifier has the given text: `true` when a
    /// row was found and removed, `false` when none was — an absent row is
    /// no error. A malformed string is a typed `InvalidId` error carrying
    /// it, and the store is then unchanged.
    pub fn delete(store: &mut TaskStore, id: String) -> (r: Result<bool, ApiError>)
        requires
            old(store).wf(),
        ensures
            final(store).wf(),
            match r {
                Ok(b) => parsed_uuid(id@) matches Some(u) && {
                    &&& b == has_id(old(store)@, u)
                    &&& final(store)@ == without_id(old(store)@, u)
                },
                Err(e) => final(store)@ == old(store)@ && match e {
                    ApiError::InvalidId(s) => s@ == id@ && parsed_uuid(id@) is None,
                    ApiError::NotFound(_) => false,
                    ApiError::Conflict => false,
                },
            },
    {
        match ids::parse_id(id.as_str()) {
            None => Err(ApiError::InvalidId(id)),
            Some(u) => match Task::get_one(store, u) {
                Some(t) => {
                    t.delete(store);
                    Ok(true)
                },
                None => {
                    proof {
                        assert(store@ =~= without_id(store@, u));
                    }
                    Ok(false)
                },
            },
        }
    }
}

/// The top read group: its one field leads to the task queries.
pub struct Query;

impl Query {
    /// The task query group.
    pub fn tasks() -> TaskQuery {
        TaskQuery
    }
}

/// The top write group: its one field leads to the task mutations.
pub struct Mutation;

impl Mutation {
    /// The task mutation group.
    pub fn tasks() -> TaskMutation {
        TaskMutation
    }
}

} // verus!
