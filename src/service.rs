//! The operation messages and their handlers, run by a worker against its
//! storage.

use vstd::prelude::*;

use crate::error::{Error, StorageError};
use crate::paste::{spec_ts_cmp, NewPaste, Paste, PasteView, Timestamp};
use crate::query::GetPasteListMsg;
use crate::store::{index_of, lemma_index_of, spec_select, views, MemStore};

verus! {

/// Store a new paste created at `created_at`.
#[derive(Debug)]
pub struct CreatePasteMsg {
    pub title: String,
    pub body: String,
    pub created_at: Timestamp,
}

/// Overwrite a paste's title and body, modified at `modified_at`.
#[derive(Debug)]
pub struct UpdatePasteMsg {
    pub id: i64,
    pub title: String,
    pub body: String,
    pub modified_at: Timestamp,
}

/// Fetch one paste.
#[derive(Debug)]
pub struct GetPasteByIdMsg {
    pub id: i64,
}

/// Remove one paste.
#[derive(Debug)]
pub struct DelPasteByIdMsg {
    pub id: i64,
}

impl CreatePasteMsg {
    /// The record to store: the creation time is also the first
    /// modification time.
    pub fn into_new_paste(self) -> (r: NewPaste)
        ensures
            r.title@ == self.title@,
            r.body@ == self.body@,
            r.created_at == self.created_at,
            r.modified_at == self.created_at,
    {
        NewPaste {
            title: self.title,
            body: self.body,
            created_at: self.created_at,
            modified_at: self.created_at,
        }
    }
}

/// A row after an update: new title, body and modification time; same id
/// and creation time.
pub open spec fn updated_row(before: PasteView, title: Seq<char>, body: Seq<char>, t: Timestamp) -> PasteView {
    PasteView { title, body, modified_at: t, ..before }
}

/// The row a lookup of `id` finds, if any.
pub open spec fn found_row(rows: Seq<PasteView>, id: i64) -> Option<PasteView> {
    if index_of(rows, id) >= 0 {
        Some(rows[index_of(rows, id)])
    } else {
        None
    }
}

/// How many rows a delete of `id` removes.
pub open spec fn delete_count(rows: Seq<PasteView>, id: i64) -> nat {
    if index_of(rows, id) >= 0 {
        1
    } else {
        0
    }
}

/// Creates a paste whose creation and modification times are both the
/// message's time.
pub fn handle_create(store: &mut MemStore, msg: CreatePasteMsg) -> (r: Result<Paste, Error>)
    requires
        old(store).wf(),
    ensures
        final(store).wf(),
        old(store)@.next_id < i64::MAX ==> {
            &&& r matches Ok(p)
            &&& p.id == old(store)@.next_id
            &&& p.title@ == msg.title@
            &&& p.body@ == msg.body@
            &&& p.created_at == msg.created_at
            &&& p.modified_at == msg.created_at
            &&& final(store)@.rows == old(store)@.rows.push(p@)
            &&& final(store)@.next_id == old(store)@.next_id + 1
        },
        old(store)@.next_id == i64::MAX ==> r == Err::<Paste, Error>(
            Error::DatabaseError(StorageError::Other),
        ) && final(store)@ == old(store)@,
{
    let new_paste = msg.into_new_paste();
    match store.insert(new_paste) {
        Ok(p) => Ok(p),
        Err(e) => Err(Error::from_storage(e)),
    }
}

/// Fetches a paste; an absent id is `NotFound`.
pub fn handle_get_by_id(store: &MemStore, msg: GetPasteByIdMsg) -> (r: Result<Paste, Error>)
    ensures
        match found_row(store@.rows, msg.id) {
            Some(row) => r matches Ok(p) && p@ == row,
            None => r == Err::<Paste, Error>(Error::DatabaseError(StorageError::NotFound)),
        },
{
    proof {
        lemma_index_of(store@.rows, msg.id);
    }
    match store.find(msg.id) {
        Ok(p) => Ok(p),
        Err(e) => Err(Error::from_storage(e)),
    }
}

/// Runs a list query; no match gives an empty list, not an error.
pub fn handle_list(store: &MemStore, msg: GetPasteListMsg) -> (r: Result<Vec<Paste>, Error>)
    ensures
        match spec_select(msg@, store@.rows) {
            Some(s) => r matches Ok(v) && views(v@) == s,
            None => r == Err::<Vec<Paste>, Error>(Error::DatabaseError(StorageError::Other)),
        },
{
    match store.load(&msg) {
        Ok(v) => Ok(v),
        Err(e) => Err(Error::from_storage(e)),
    }
}

/// Overwrites a paste's title and body and sets its modification time; an
/// absent id is `NotFound`.
pub fn handle_update(store: &mut MemStore, msg: UpdatePasteMsg) -> (r: Result<Paste, Error>)
    requires
        old(store).wf(),
    ensures
        final(store).wf(),
        match found_row(old(store)@.rows, msg.id) {
            Some(before) => {
                let after = updated_row(before, msg.title@, msg.body@, msg.modified_at);
                &&& r matches Ok(p)
                &&& p@ == after
                &&& final(store)@.rows == old(store)@.rows.update(index_of(old(store)@.rows, msg.id), after)
            },
            None => r == Err::<Paste, Error>(Error::DatabaseError(StorageError::NotFound))
                && final(store)@ == old(store)@,
        },
{
    match store.update(msg.id, msg.title, msg.body, msg.modified_at) {
        Ok(p) => Ok(p),
        Err(e) => Err(Error::from_storage(e)),
    }
}

/// Removes a paste and returns how many rows went: an absent id gives 0,
/// not an error.
pub fn handle_delete(store: &mut MemStore, msg: DelPasteByIdMsg) -> (r: Result<usize, Error>)
    requires
        old(store).wf(),
    ensures
        final(store).wf(),
        final(store)@.next_id == old(store)@.next_id,
        r matches Ok(n) && n == delete_count(old(store)@.rows, msg.id),
        found_row(old(store)@.rows, msg.id) is Some ==> final(store)@.rows == old(store)@.rows.remove(
            index_of(old(store)@.rows, msg.id),
        ),
        found_row(old(store)@.rows, msg.id) is None ==> final(store)@ == old(store)@,
{
    Ok(store.delete(msg.id))
}

/// For an id that no row has, a delete removes nothing and succeeds with
/// zero rows, while a lookup finds nothing and so reports `NotFound`.
pub proof fn lemma_absent_id(rows: Seq<PasteView>, id: i64)
    requires
        forall|i: int| 0 <= i < rows.len() ==> #[trigger] rows[i].id != id,
    ensures
        delete_count(rows, id) == 0,
        found_row(rows, id) is None,
{
    lemma_index_of(rows, id);
}

/// An update at a time later than the row's last modification moves the
/// modification time strictly forward and leaves the creation time as it
/// was.
pub proof fn lemma_update_advances(before: PasteView, title: Seq<char>, body: Seq<char>, t: Timestamp)
    requires
        spec_ts_cmp(t, before.modified_at) > 0,
    ensures
        spec_ts_cmp(updated_row(before, title, body, t).modified_at, before.modified_at) > 0,
        updated_row(before, title, body, t).created_at == before.created_at,
        updated_row(before, title, body, t).id == before.id,
{
}

} // verus!
