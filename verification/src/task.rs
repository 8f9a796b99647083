//! The task entity and its store.
//!
//! A `TaskStore` stands for the one task table: a sequence of rows in
//! insertion order, each carrying a distinct identifier. Every operation is
//! a single pass over the rows. The store's view is the sequence of row
//! views, and every operation's contract is stated over that sequence.

use vstd::prelude::*;

verus! {

/// The mathematical content of one task row.
#[verifier::ext_equal]
pub struct TaskView {
    pub id: u128,
    pub title: Seq<char>,
    pub description: Option<Seq<char>>,
    pub parent_id: Option<u128>,
}

/// One task of the forest. The identifier is assigned by the store on
/// creation and never changes; `parent_id`, when present, names the
/// task's parent.
pub struct Task {
    id: u128,
    title: String,
    description: Option<String>,
    parent_id: Option<u128>,
}

/// The view of an optional text.
pub open spec fn opt_text(d: Option<String>) -> Option<Seq<char>> {
    match d {
        Some(s) => Some(s@),
        None => None,
    }
}

impl View for Task {
    type V = TaskView;

    closed spec fn view(&self) -> TaskView {
        TaskView {
            id: self.id,
            title: self.title@,
            description: opt_text(self.description),
            parent_id: self.parent_id,
        }
    }
}

/// The views of a sequence of tasks.
pub open spec fn views_of(ts: Seq<Task>) -> Seq<TaskView> {
    ts.map_values(|t: Task| t@)
}

/// Whether some row of `s` carries the identifier `id`.
pub open spec fn has_id(s: Seq<TaskView>, id: u128) -> bool {
    exists|i: int| 0 <= i < s.len() && s[i].id == id
}

/// Every row of `s` carries a distinct identifier.
pub open spec fn unique_ids(s: Seq<TaskView>) -> bool {
    forall|i: int, j: int| 0 <= i < j < s.len() ==> s[i].id != s[j].id
}

/// The row of `s` that carries `id`, if any. Under `unique_ids` there is
/// at most one such row.
pub open spec fn find_task(s: Seq<TaskView>, id: u128) -> Option<TaskView> {
    if has_id(s, id) {
        Some(s[choose|i: int| 0 <= i < s.len() && s[i].id == id])
    } else {
        None
    }
}

/// The rows of `s` without a parent, in store order.
pub open spec fn roots_of(s: Seq<TaskView>) -> Seq<TaskView>
    decreases s.len(),
{
    if s.len() == 0 {
        Seq::empty()
    } else {
        let rest = roots_of(s.drop_last());
        if s.last().parent_id is None {
            rest.push(s.last())
        } else {
            rest
        }
    }
}

/// The rows of `s` whose parent is `id`, in store order.
pub open spec fn children_of(s: Seq<TaskView>, id: u128) -> Seq<TaskView>
    decreases s.len(),
{
    if s.len() == 0 {
        Seq::empty()
    } else {
        let rest = children_of(s.drop_last(), id);
        if s.last().parent_id == Some(id) {
            rest.push(s.last())
        } else {
            rest
        }
    }
}

/// How many rows of `s` carry `id`: what a count query against `id`
/// returns. Under `unique_ids` it is 0 or 1.
pub open spec fn count_id(s: Seq<TaskView>, id: u128) -> nat
    decreases s.len(),
{
    if s.len() == 0 {
        0
    } else {
        count_id(s.drop_last(), id) + if s.last().id == id {
            1nat
        } else {
            0nat
        }
    }
}

/// `s` with the row carrying `id` removed; `s` itself when none does.
pub open spec fn without_id(s: Seq<TaskView>, id: u128) -> Seq<TaskView> {
    if has_id(s, id) {
        s.remove(choose|i: int| 0 <= i < s.len() && s[i].id == id)
    } else {
        s
    }
}

/// The one storage failure the store reports: the identifier for an insert
/// is already taken by a row.
#[derive(Clone, Copy, PartialEq, Eq, Structural, Debug)]
pub enum StoreError {
    IdConflict,
}

/// The task table: the rows in insertion order.
pub struct TaskStore {
    tasks: Vec<Task>,
}

impl View for TaskStore {
    type V = Seq<TaskView>;

    closed spec fn view(&self) -> Seq<TaskView> {
        views_of(self.tasks@)
    }
}

impl TaskStore {
    /// Every row carries a distinct identifier.
    pub open spec fn wf(&self) -> bool {
        unique_ids(self@)
    }

    /// An empty store.
    pub fn new() -> (s: TaskStore)
        ensures
            s.wf(),
            s@ == Seq::<TaskView>::empty(),
    {
        let s = TaskStore { tasks: Vec::new() };
        proof {
            assert(s@ =~= Seq::<TaskView>::empty());
        }
        s
    }

    /// The index of the row carrying `id`, if any.
    fn index_of(&self, id: u128) -> (r: Option<usize>)
        ensures
            match r {
                Some(i) => i < self@.len() && self@[i as int].id == id,
                None => !has_id(self@, id),
            },
    {
        let n = self.tasks.len();
        let mut i: usize = 0;
        while i < n
            invariant
                n == self.tasks.len(),
                self@.len() == n,
                i <= n,
                forall|j: int| 0 <= j < i ==> self@[j].id != id,
            decreases n - i,
        {
            if self.tasks[i].id == id {
                return Some(i);
            }
            i += 1;
        }
        None
    }

    /// How many rows carry `id`: what a count query against `id` returns.
    pub fn count_with_id(&self, id: u128) -> (n: usize)
        ensures
            n == count_id(self@, id),
    {
        let len = self.tasks.len();
        let mut i: usize = 0;
        let mut n: usize = 0;
        while i < len
            invariant
                len == self.tasks.len(),
                self@.len() == len,
                i <= len,
                n <= i,
                n == count_id(self@.subrange(0, i as int), id),
            decreases len - i,
        {
            if self.tasks[i].id == id {
                n += 1;
            }
            i += 1;
            proof {
                assert(self@.subrange(0, i as int).drop_last() =~= self@.subrange(
                    0,
                    i as int - 1,
                ));
            }
        }
        proof {
            assert(self@.subrange(0, len as int) =~= self@);
        }
        n
    }
}

/// Under `unique_ids`, two rows carrying one identifier are one row.
pub proof fn lemma_id_unique(s: Seq<TaskView>, i: int, j: int)
    requires
        unique_ids(s),
        0 <= i < s.len(),
        0 <= j < s.len(),
        s[i].id == s[j].id,
    ensures
        i == j,
{
    if i < j {
        assert(s[i].id != s[j].id);
    } else if j < i {
        assert(s[j].id != s[i].id);
    }
}

/// Appending a row with a fresh identifier keeps the identifiers distinct.
pub proof fn lemma_unique_push(s: Seq<TaskView>, t: TaskView)
    requires
        unique_ids(s),
        !has_id(s, t.id),
    ensures
        unique_ids(s.push(t)),
{
    assert forall|i: int, j: int| 0 <= i < j < s.push(t).len() implies s.push(t)[i].id != s.push(
        t,
    )[j].id by {
        if j < s.len() {
            assert(s[i].id != s[j].id);
        } else {
            assert(s.push(t)[j] == t);
            assert(s.push(t)[i] == s[i]);
        }
    }
}

impl Task {
    /// The identifier the store assigned to the task.
    pub fn id(&self) -> (r: u128)
        ensures
            r == self@.id,
    {
        self.id
    }

    /// The task's title.
    pub fn title(&self) -> (r: &String)
        ensures
            r@ == self@.title,
    {
        &self.title
    }

    /// The task's description, if it has one.
    pub fn description(&self) -> (r: &Option<String>)
        ensures
            opt_text(*r) == self@.description,
    {
        &self.description
    }

    /// The identifier of the task's parent, if it has one.
    pub fn parent_id(&self) -> (r: Option<u128>)
        ensures
            r == self@.parent_id,
    {
        self.parent_id
    }

    /// The canonical text of the task's identifier, as it crosses the
    /// surface.
    pub fn id_string(&self) -> (r: String)
        ensures
            r@ == crate::ids::uuid_text(self@.id),
            crate::ids::parsed_uuid(r@) == Some(self@.id),
    {
        crate::ids::id_text(self.id)
    }

    /// Inserts a new task with the given fields under the identifier `id`.
    /// Succeeds exactly when no row carries `id` yet, appending the new row;
    /// the store is unchanged on failure.
    pub fn create_with_id(
        store: &mut TaskStore,
        id: u128,
        title: String,
        description: Option<String>,
        parent_id: Option<u128>,
    ) -> (r: Result<Task, StoreError>)
        requires
            old(store).wf(),
        ensures
            final(store).wf(),
            match r {
                Ok(t) => {
                    &&& !has_id(old(store)@, id)
                    &&& t@ == (TaskView {
                        id,
                        title: title@,
                        description: opt_text(description),
                        parent_id,
                    })
                    &&& final(store)@ == old(store)@.push(t@)
                    &&& find_task(final(store)@, id) == Some(t@)
                },
                Err(e) => {
                    &&& e == StoreError::IdConflict
                    &&& has_id(old(store)@, id)
                    &&& final(store)@ == old(store)@
                },
            },
    {
        match store.index_of(id) {
            Some(_) => Err(StoreError::IdConflict),
            None => {
                let t = Task { id, title, description, parent_id };
                let row = copy_task(&t);
                proof {
                    lemma_unique_push(store@, t@);
                    lemma_create_then_get(store@, t@);
                }
                store.tasks.push(row);
                proof {
                    assert(store@ =~= old(store)@.push(t@));
                }
                Ok(t)
            },
        }
    }

    /// Draws a fresh random identifier and inserts a new task under it,
    /// returning the stored row. Fails only when the drawn identifier is
    /// already taken, the store's one insert-constraint violation; the
    /// store is then unchanged. On an empty store no identifier can be
    /// taken, so creation there always succeeds.
    pub fn create(
        store: &mut TaskStore,
        title: String,
        description: Option<String>,
        parent_id: Option<u128>,
    ) -> (r: Result<Task, StoreError>)
        requires
            old(store).wf(),
        ensures
            final(store).wf(),
            match r {
                Ok(t) => {
                    &&& !has_id(old(store)@, t@.id)
                    &&& t@.title == title@
                    &&& t@.description == opt_text(description)
                    &&& t@.parent_id == parent_id
                    &&& final(store)@ == old(store)@.push(t@)
                    &&& find_task(final(store)@, t@.id) == Some(t@)
                },
                Err(e) => {
                    &&& e == StoreError::IdConflict
                    &&& final(store)@ == old(store)@
                    &&& old(store)@.len() > 0
                },
            },
    {
        let id = crate::ids::random_id();
        Self::create_with_id(store, id, title, description, parent_id)
    }

    /// The task carrying `id`, or `None` when no row does.
    pub fn get_one(store: &TaskStore, id: u128) -> (r: Option<Task>)
        requires
            store.wf(),
        ensures
            match r {
                Some(t) => find_task(store@, id) == Some(t@) && t@.id == id,
                None => !has_id(store@, id) && find_task(store@, id) is None,
            },
    {
        match store.index_of(id) {
            Some(i) => {
                let t = copy_task(&store.tasks[i]);
                proof {
                    let j = choose|j: int| 0 <= j < store@.len() && store@[j].id == id;
                    lemma_id_unique(store@, i as int, j);
                }
                Some(t)
            },
            None => None,
        }
    }

    /// All root tasks (rows without a parent), in store order.
    pub fn get_roots(store: &TaskStore) -> (r: Vec<Task>)
        ensures
            views_of(r@) == roots_of(store@),
    {
        let n = store.tasks.len();
        let mut out: Vec<Task> = Vec::new();
        proof {
            assert(views_of(out@) =~= roots_of(store@.subrange(0, 0)));
        }
        let mut i: usize = 0;
        while i < n
            invariant
                n == store.tasks.len(),
                store@.len() == n,
                i <= n,
                views_of(out@) == roots_of(store@.subrange(0, i as int)),
            decreases n - i,
        {
            let is_root = store.tasks[i].parent_id.is_none();
            if is_root {
                let row = copy_task(&store.tasks[i]);
                out.push(row);
            }
            i += 1;
            proof {
                let pre = store@.subrange(0, i as int - 1);
                let cur = store@.subrange(0, i as int);
                assert(cur.drop_last() =~= pre);
                assert(cur.last() == store@[i as int - 1]);
                assert(views_of(out@) =~= roots_of(cur));
            }
        }
        proof {
            assert(store@.subrange(0, n as int) =~= store@);
        }
        out
    }

    /// The task's children: all rows whose parent reference carries its
    /// identifier, in store order.
    pub fn children(&self, store: &TaskStore) -> (r: Vec<Task>)
        ensures
            views_of(r@) == children_of(store@, self@.id),
    {
        let n = store.tasks.len();
        let mut out: Vec<Task> = Vec::new();
        proof {
            assert(views_of(out@) =~= children_of(store@.subrange(0, 0), self@.id));
        }
        let mut i: usize = 0;
        while i < n
            invariant
                n == store.tasks.len(),
                store@.len() == n,
                i <= n,
                views_of(out@) == children_of(store@.subrange(0, i as int), self@.id),
            decreases n - i,
        {
            let is_child = match store.tasks[i].parent_id {
                Some(p) => p == self.id,
                None => false,
            };
            if is_child {
                let row = copy_task(&store.tasks[i]);
                out.push(row);
            }
            i += 1;
            proof {
                let pre = store@.subrange(0, i as int - 1);
                let cur = store@.subrange(0, i as int);
                assert(cur.drop_last() =~= pre);
                assert(cur.last() == store@[i as int - 1]);
                assert(views_of(out@) =~= children_of(cur, self@.id));
            }
        }
        proof {
            assert(store@.subrange(0, n as int) =~= store@);
        }
        out
    }

    /// The task's parent row. When `parent_id` is set the caller owes an
    /// existing parent row: the store treats a dangling reference as a row
    /// that must exist, not as an absence.
    pub fn parent(&self, store: &TaskStore) -> (r: Option<Task>)
        requires
            store.wf(),
            self@.parent_id matches Some(p) ==> has_id(store@, p),
        ensures
            match r {
                Some(t) => self@.parent_id matches Some(p) && find_task(store@, p) == Some(t@),
                None => self@.parent_id is None,
            },
    {
        match self.parent_id {
            Some(p) => {
                let t = Task::get_one(store, p);
                Some(t.unwrap())
            },
            None => None,
        }
    }

    /// Replaces the row's title in the store and returns the updated row.
    /// Only that row changes, and of it only the title; the returned task
    /// keeps the same identifier. Consumes the stale handle: the
    /// returned task is the row's current state.
    pub fn update_title(self, store: &mut TaskStore, title: String) -> (r: Task)
        requires
            old(store).wf(),
            has_id(old(store)@, self@.id),
        ensures
            final(store).wf(),
            final(store)@.len() == old(store)@.len(),
            r@.id == self@.id,
            r@.title == title@,
            (find_task(old(store)@, self@.id) matches Some(row) && {
                &&& r@.description == row.description
                &&& r@.parent_id == row.parent_id
            }),
            find_task(old(store)@, self@.id) == Some(self@) ==> r@.description
                == self@.description && r@.parent_id == self@.parent_id,
            forall|j: int|
                0 <= j < old(store)@.len() && old(store)@[j].id != self@.id ==> final(store)@[j]
                    == old(store)@[j],
            forall|j: int|
                0 <= j < old(store)@.len() && old(store)@[j].id == self@.id ==> final(store)@[j]
                    == r@,
            find_task(final(store)@, self@.id) == Some(r@),
    {
        let i = store.index_of(self.id).unwrap();
        let description = match &store.tasks[i].description {
            Some(d) => Some(d.clone()),
            None => None,
        };
        let parent_id = store.tasks[i].parent_id;
        let t = Task { id: self.id, title, description, parent_id };
        let row = copy_task(&t);
        store.tasks.remove(i);
        store.tasks.insert(i, row);
        proof {
            lemma_store_update(old(store)@, store@, i as int, t@);
        }
        t
    }

    /// Replaces the row's description in the store and returns the updated
    /// row; clearing it is passing `None`. Only that row changes, and of it
    /// only the description. Consumes the stale handle.
    pub fn update_description(self, store: &mut TaskStore, description: Option<String>) -> (r:
        Task)
        requires
            old(store).wf(),
            has_id(old(store)@, self@.id),
        ensures
            final(store).wf(),
            final(store)@.len() == old(store)@.len(),
            r@.id == self@.id,
            r@.description == opt_text(description),
            (find_task(old(store)@, self@.id) matches Some(row) && {
                &&& r@.title == row.title
                &&& r@.parent_id == row.parent_id
            }),
            find_task(old(store)@, self@.id) == Some(self@) ==> r@.title == self@.title
                && r@.parent_id == self@.parent_id,
            forall|j: int|
                0 <= j < old(store)@.len() && old(store)@[j].id != self@.id ==> final(store)@[j]
                    == old(store)@[j],
            forall|j: int|
                0 <= j < old(store)@.len() && old(store)@[j].id == self@.id ==> final(store)@[j]
                    == r@,
            find_task(final(store)@, self@.id) == Some(r@),
    {
        let i = store.index_of(self.id).unwrap();
        let title = store.tasks[i].title.clone();
        let parent_id = store.tasks[i].parent_id;
        let t = Task { id: self.id, title, description, parent_id };
        let row = copy_task(&t);
        store.tasks.remove(i);
        store.tasks.insert(i, row);
        proof {
            lemma_store_update(old(store)@, store@, i as int, t@);
        }
        t
    }

    /// Removes the task's row from the store. Rows already absent are left
    /// alone; there is no cascade, so children of the removed row keep
    /// their now-dangling parent reference. Consumes the handle.
    pub fn delete(self, store: &mut TaskStore)
        requires
            old(store).wf(),
        ensures
            final(store).wf(),
            final(store)@ == without_id(old(store)@, self@.id),
            !has_id(final(store)@, self@.id),
    {
        match store.index_of(self.id) {
            Some(i) => {
                store.tasks.remove(i);
                proof {
                    let s = old(store)@;
                    let j = choose|j: int| 0 <= j < s.len() && s[j].id == self@.id;
                    lemma_id_unique(s, i as int, j);
                    assert(store@ =~= s.remove(i as int));
                    lemma_unique_remove(s, i as int);
                }
            },
            None => {
                proof {
                    assert(store@ =~= without_id(old(store)@, self@.id));
                }
            },
        }
    }
}

/// Removing one row keeps the remaining identifiers distinct, and removing
/// the row carrying an identifier leaves no row carrying it.
proof fn lemma_unique_remove(s: Seq<TaskView>, i: int)
    requires
        unique_ids(s),
        0 <= i < s.len(),
    ensures
        unique_ids(s.remove(i)),
        !has_id(s.remove(i), s[i].id),
{
    let r = s.remove(i);
    assert forall|a: int, b: int| 0 <= a < b < r.len() implies r[a].id != r[b].id by {
        let a0 = if a < i { a } else { a + 1 };
        let b0 = if b < i { b } else { b + 1 };
        assert(r[a] == s[a0]);
        assert(r[b] == s[b0]);
    }
    assert forall|a: int| 0 <= a < r.len() implies r[a].id != s[i].id by {
        let a0 = if a < i { a } else { a + 1 };
        assert(r[a] == s[a0]);
        if a0 < i {
            assert(s[a0].id != s[i].id);
        } else {
            assert(s[i].id != s[a0].id);
        }
    }
}

/// After replacing the row at `i` by a row with the same identifier, the
/// store is the old store with only that row changed.
proof fn lemma_store_update(s: Seq<TaskView>, s2: Seq<TaskView>, i: int, t: TaskView)
    requires
        unique_ids(s),
        0 <= i < s.len(),
        s[i].id == t.id,
        s2 =~= s.remove(i).insert(i, t),
    ensures
        unique_ids(s2),
        s2.len() == s.len(),
        forall|j: int| 0 <= j < s.len() && s[j].id != t.id ==> s2[j] == s[j],
        forall|j: int| 0 <= j < s.len() && s[j].id == t.id ==> s2[j] == t,
        find_task(s, t.id) == Some(s[i]),
        find_task(s2, t.id) == Some(t),
{
    assert(s2 =~= s.update(i, t));
    assert forall|j: int| 0 <= j < s.len() && s[j].id == t.id implies s2[j] == t by {
        lemma_id_unique(s, i, j);
    }
    assert forall|a: int, b: int| 0 <= a < b < s2.len() implies s2[a].id != s2[b].id by {
        assert(s2[a].id == s[a].id);
        assert(s2[b].id == s[b].id);
    }
    let j = choose|j: int| 0 <= j < s.len() && s[j].id == t.id;
    lemma_id_unique(s, i, j);
    let j2 = choose|j: int| 0 <= j < s2.len() && s2[j].id == t.id;
    assert(s2[i].id == t.id);
    lemma_id_unique(s2, i, j2);
}

/// A sequence without a row carrying `id` counts no row carrying `id`.
proof fn lemma_count_absent(s: Seq<TaskView>, id: u128)
    requires
        !has_id(s, id),
    ensures
        count_id(s, id) == 0,
    decreases s.len(),
{
    if s.len() > 0 {
        assert forall|j: int| 0 <= j < s.drop_last().len() implies s.drop_last()[j].id != id by {
            assert(s[j].id != id);
        }
        lemma_count_absent(s.drop_last(), id);
        assert(s[s.len() - 1].id != id);
    }
}

/// Every row of `roots_of(s)` is a row of `s`, so an identifier absent
/// from `s` is absent from its roots.
proof fn lemma_roots_absent(s: Seq<TaskView>, id: u128)
    requires
        !has_id(s, id),
    ensures
        count_id(roots_of(s), id) == 0,
        !has_id(roots_of(s), id),
    decreases s.len(),
{
    if s.len() == 0 {
    } else {
        assert forall|j: int| 0 <= j < s.drop_last().len() implies s.drop_last()[j].id != id by {
            assert(s[j].id != id);
        }
        lemma_roots_absent(s.drop_last(), id);
        let rest = roots_of(s.drop_last());
        if s.last().parent_id is None {
            assert(roots_of(s).drop_last() =~= rest);
            assert(s[s.len() - 1].id != id);
            assert forall|j: int| 0 <= j < roots_of(s).len() implies roots_of(s)[j].id != id by {
                if j < rest.len() {
                    assert(rest[j].id != id);
                }
            }
        }
    }
}

/// Every row of `children_of(s, p)` is a row of `s`, so an identifier
/// absent from `s` is absent from the children of any row.
proof fn lemma_children_absent(s: Seq<TaskView>, p: u128, id: u128)
    requires
        !has_id(s, id),
    ensures
        count_id(children_of(s, p), id) == 0,
        !has_id(children_of(s, p), id),
    decreases s.len(),
{
    if s.len() == 0 {
    } else {
        assert forall|j: int| 0 <= j < s.drop_last().len() implies s.drop_last()[j].id != id by {
            assert(s[j].id != id);
        }
        lemma_children_absent(s.drop_last(), p, id);
        let rest = children_of(s.drop_last(), p);
        if s.last().parent_id == Some(p) {
            assert(children_of(s, p).drop_last() =~= rest);
            assert(s[s.len() - 1].id != id);
            assert forall|j: int| 0 <= j < children_of(s, p).len() implies children_of(s, p)[j].id
                != id by {
                if j < rest.len() {
                    assert(rest[j].id != id);
                }
            }
        }
    }
}

/// Law: a task fetched by its identifier right after it was created is the
/// created task, every field intact.
pub proof fn lemma_create_then_get(s: Seq<TaskView>, t: TaskView)
    requires
        unique_ids(s),
        !has_id(s, t.id),
    ensures
        unique_ids(s.push(t)),
        find_task(s.push(t), t.id) == Some(t),
{
    lemma_unique_push(s, t);
    let s2 = s.push(t);
    assert(s2[s.len() as int] == t);
    let j = choose|j: int| 0 <= j < s2.len() && s2[j].id == t.id;
    lemma_id_unique(s2, s.len() as int, j);
}

/// Law: a task created without a parent appears in the roots, exactly
/// once; one created with a parent leaves the roots as they were and is
/// not among them.
pub proof fn lemma_roots_after_create(s: Seq<TaskView>, t: TaskView)
    requires
        !has_id(s, t.id),
    ensures
        t.parent_id is None ==> roots_of(s.push(t)) == roots_of(s).push(t) && count_id(
            roots_of(s.push(t)),
            t.id,
        ) == 1,
        t.parent_id is Some ==> roots_of(s.push(t)) == roots_of(s) && count_id(
            roots_of(s.push(t)),
            t.id,
        ) == 0,
{
    let s2 = s.push(t);
    assert(s2.drop_last() =~= s);
    assert(s2.last() == t);
    lemma_roots_absent(s, t.id);
    if t.parent_id is None {
        assert(roots_of(s2) == roots_of(s).push(t));
        assert(roots_of(s2).drop_last() =~= roots_of(s));
        assert(roots_of(s2).last() == t);
    }
}

/// Law: a task created under a parent `p` joins `p`'s children, exactly
/// once, and its parent lookup still finds `p`'s row unchanged.
pub proof fn lemma_children_after_create(s: Seq<TaskView>, p: TaskView, t: TaskView)
    requires
        unique_ids(s),
        find_task(s, p.id) == Some(p),
        !has_id(s, t.id),
        t.parent_id == Some(p.id),
    ensures
        children_of(s.push(t), p.id) == children_of(s, p.id).push(t),
        count_id(children_of(s.push(t), p.id), t.id) == 1,
        find_task(s.push(t), p.id) == Some(p),
{
    let s2 = s.push(t);
    assert(s2.drop_last() =~= s);
    assert(s2.last() == t);
    lemma_children_absent(s, p.id, t.id);
    assert(children_of(s2, p.id) == children_of(s, p.id).push(t));
    assert(children_of(s2, p.id).drop_last() =~= children_of(s, p.id));
    assert(children_of(s2, p.id).last() == t);
    let i = choose|i: int| 0 <= i < s.len() && s[i].id == p.id;
    assert(s[i] == p);
    assert(s2[i] == p);
    lemma_unique_push(s, t);
    let j = choose|j: int| 0 <= j < s2.len() && s2[j].id == p.id;
    lemma_id_unique(s2, i, j);
}

/// Law: after a delete, no lookup and no count against the removed
/// identifier finds a row, and the remaining identifiers stay distinct.
pub proof fn lemma_delete_removes(s: Seq<TaskView>, id: u128)
    requires
        unique_ids(s),
    ensures
        unique_ids(without_id(s, id)),
        !has_id(without_id(s, id), id),
        find_task(without_id(s, id), id) is None,
        count_id(without_id(s, id), id) == 0,
{
    if has_id(s, id) {
        let i = choose|i: int| 0 <= i < s.len() && s[i].id == id;
        lemma_unique_remove(s, i);
    }
    lemma_count_absent(without_id(s, id), id);
}

/// A fresh task equal to `t`, field for field.
fn copy_task(t: &Task) -> (r: Task)
    ensures
        r@ == t@,
{
    let description = match &t.description {
        Some(d) => Some(d.clone()),
        None => None,
    };
    Task { id: t.id, title: t.title.clone(), description, parent_id: t.parent_id }
}

} // verus!
