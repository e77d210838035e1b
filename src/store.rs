//! An in-memory paste table with the storage contract the operation
//! handlers rely on: single-row insert, lookup, update and delete, and list
//! queries with filters, multi-key ordering, offset and limit.

use vstd::prelude::*;

use crate::cond::{Item, Order, Orderby};
use crate::error::StorageError;
use crate::paste::{spec_ts_cmp, NewPaste, Paste, PasteView, Timestamp};
use crate::query::{
    apply_steps, build_query, eff_limit, eff_offset, column_cmp, compare_rows, keeps_all, keeps_row, key_cmp,
    lemma_column_cmp_range, lemma_plan_keeps, lemma_plan_shape, order_cmp, plain_shape,
    plan_shape, query_keys, spec_plan, spec_row_matches, step_views, text_cmp, GetPasteListMsg,
    ListQueryView, QueryStep, StepView,
};

verus! {

/// The index of the row with id `id`, or -1.
pub open spec fn index_of(rows: Seq<PasteView>, id: i64) -> int
    decreases rows.len(),
{
    if rows.len() == 0 {
        -1
    } else if rows.last().id == id {
        rows.len() - 1
    } else {
        index_of(rows.drop_last(), id)
    }
}

pub proof fn lemma_index_of(rows: Seq<PasteView>, id: i64)
    ensures
        -1 <= index_of(rows, id) < rows.len(),
        index_of(rows, id) >= 0 ==> rows[index_of(rows, id)].id == id,
        index_of(rows, id) == -1 ==> forall|i: int| 0 <= i < rows.len() ==> #[trigger] rows[i].id != id,
    decreases rows.len(),
{
    if rows.len() > 0 {
        lemma_index_of(rows.drop_last(), id);
        if index_of(rows, id) == -1 {
            assert forall|i: int| 0 <= i < rows.len() implies #[trigger] rows[i].id != id by {
                if i < rows.len() - 1 {
                    assert(rows[i] == rows.drop_last()[i]);
                }
            }
        }
    }
}

/// The rows of `rows` that pass the query's filters, in table order.
pub open spec fn matching_rows(d: ListQueryView, rows: Seq<PasteView>) -> Seq<PasteView>
    decreases rows.len(),
{
    if rows.len() == 0 {
        rows
    } else if spec_row_matches(d, rows.last()) {
        matching_rows(d, rows.drop_last()).push(rows.last())
    } else {
        matching_rows(d, rows.drop_last())
    }
}

/// The rows of `rows` that pass the filters of both `d1` and `d2`, in table
/// order.
pub open spec fn matching_both(d1: ListQueryView, d2: ListQueryView, rows: Seq<PasteView>) -> Seq<
    PasteView,
>
    decreases rows.len(),
{
    if rows.len() == 0 {
        rows
    } else if spec_row_matches(d1, rows.last()) && spec_row_matches(d2, rows.last()) {
        matching_both(d1, d2, rows.drop_last()).push(rows.last())
    } else {
        matching_both(d1, d2, rows.drop_last())
    }
}

proof fn lemma_filter_twice(d1: ListQueryView, d2: ListQueryView, rows: Seq<PasteView>)
    ensures
        matching_rows(d2, matching_rows(d1, rows)) == matching_both(d1, d2, rows),
    decreases rows.len(),
{
    if rows.len() > 0 {
        lemma_filter_twice(d1, d2, rows.drop_last());
        let m = matching_rows(d1, rows.drop_last());
        let x = rows.last();
        if spec_row_matches(d1, x) {
            assert(m.push(x).drop_last() =~= m);
            assert(m.push(x).last() == x);
        }
    }
}

proof fn lemma_matching_both_symmetric(d1: ListQueryView, d2: ListQueryView, rows: Seq<PasteView>)
    ensures
        matching_both(d1, d2, rows) == matching_both(d2, d1, rows),
    decreases rows.len(),
{
    if rows.len() > 0 {
        lemma_matching_both_symmetric(d1, d2, rows.drop_last());
    }
}

/// Filtering is order-independent: filtering by the conditions of one
/// query and then by those of another keeps the same rows, in the same
/// order, as doing it the other way round.
pub proof fn lemma_filters_commute(d1: ListQueryView, d2: ListQueryView, rows: Seq<PasteView>)
    ensures
        matching_rows(d2, matching_rows(d1, rows)) == matching_rows(d1, matching_rows(d2, rows)),
{
    lemma_filter_twice(d1, d2, rows);
    lemma_filter_twice(d2, d1, rows);
    lemma_matching_both_symmetric(d1, d2, rows);
}

/// Where `x` goes in the ordered `s`: before the first row that sorts
/// strictly after it, so that rows that compare equal keep their order.
pub open spec fn insert_pos(keys: Seq<Orderby>, s: Seq<PasteView>, x: PasteView) -> nat
    decreases s.len(),
{
    if s.len() == 0 {
        0
    } else if order_cmp(keys, s[0], x) > 0 {
        0
    } else {
        1 + insert_pos(keys, s.drop_first(), x)
    }
}

/// The rows ordered by the keys; rows that compare equal keep their order.
pub open spec fn sort_rows(keys: Seq<Orderby>, rows: Seq<PasteView>) -> Seq<PasteView>
    decreases rows.len(),
{
    if rows.len() == 0 {
        rows
    } else {
        let s = sort_rows(keys, rows.drop_last());
        s.insert(insert_pos(keys, s, rows.last()) as int, rows.last())
    }
}

/// Whether each row sorts no later than the next one.
pub open spec fn is_ordered(keys: Seq<Orderby>, s: Seq<PasteView>) -> bool {
    forall|i: int| 0 <= i < s.len() - 1 ==> order_cmp(keys, #[trigger] s[i], s[i + 1]) <= 0
}

/// The part of `s` after skipping `offset` rows, at most `limit` rows long.
pub open spec fn window(s: Seq<PasteView>, offset: int, limit: Option<int>) -> Seq<PasteView> {
    let lo = if offset < s.len() {
        offset
    } else {
        s.len() as int
    };
    let hi = match limit {
        Some(l) => if lo + l < s.len() {
            lo + l
        } else {
            s.len() as int
        },
        None => s.len() as int,
    };
    s.subrange(lo, hi)
}

/// What a list query returns from a table: the matching rows, ordered by
/// the keys, then the window of offset and limit, where an absent limit is
/// 20 and an absent offset 0. A negative limit or offset is refused.
pub open spec fn spec_select(d: ListQueryView, rows: Seq<PasteView>) -> Option<Seq<PasteView>> {
    if eff_limit(d) < 0 || eff_offset(d) < 0 {
        None
    } else {
        Some(
            window(
                sort_rows(query_keys(d), matching_rows(d, rows)),
                eff_offset(d) as int,
                Some(eff_limit(d) as int),
            ),
        )
    }
}

/// Text comparison is antisymmetric.
pub proof fn lemma_text_cmp_antisym(a: Seq<char>, b: Seq<char>)
    ensures
        text_cmp(a, b) == -text_cmp(b, a),
    decreases a.len(),
{
    if a.len() > 0 && b.len() > 0 {
        lemma_text_cmp_antisym(a.drop_first(), b.drop_first());
    }
}

/// Row comparison on a key list is antisymmetric.
pub proof fn lemma_order_cmp_antisym(keys: Seq<Orderby>, a: PasteView, b: PasteView)
    ensures
        order_cmp(keys, a, b) == -order_cmp(keys, b, a),
    decreases keys.len(),
{
    lemma_text_cmp_antisym(a.title, b.title);
    lemma_text_cmp_antisym(a.body, b.body);
    assert(spec_ts_cmp(a.created_at, b.created_at) == -spec_ts_cmp(b.created_at, a.created_at));
    assert(spec_ts_cmp(a.modified_at, b.modified_at) == -spec_ts_cmp(b.modified_at, a.modified_at));
    if keys.len() > 0 {
        assert(column_cmp(keys[0].item, a, b) == -column_cmp(keys[0].item, b, a));
        assert(key_cmp(keys[0], a, b) == -key_cmp(keys[0], b, a));
        lemma_order_cmp_antisym(keys.drop_first(), a, b);
    }
}

/// The insertion point lies after every row that does not sort after `x`
/// and before the first that does.
pub proof fn lemma_insert_pos(keys: Seq<Orderby>, s: Seq<PasteView>, x: PasteView)
    ensures
        insert_pos(keys, s, x) <= s.len(),
        forall|k: int| 0 <= k < insert_pos(keys, s, x) ==> order_cmp(keys, #[trigger] s[k], x) <= 0,
        insert_pos(keys, s, x) < s.len() ==> order_cmp(keys, s[insert_pos(keys, s, x) as int], x) > 0,
    decreases s.len(),
{
    if s.len() > 0 && order_cmp(keys, s[0], x) <= 0 {
        let t = s.drop_first();
        lemma_insert_pos(keys, t, x);
        assert forall|k: int| 0 <= k < insert_pos(keys, s, x) implies order_cmp(
            keys,
            #[trigger] s[k],
            x,
        ) <= 0 by {
            if k > 0 {
                assert(s[k] == t[k - 1]);
            }
        }
    }
}

/// A position with that property is the insertion point.
pub proof fn lemma_insert_pos_at(keys: Seq<Orderby>, s: Seq<PasteView>, x: PasteView, j: int)
    requires
        0 <= j <= s.len(),
        forall|k: int| 0 <= k < j ==> order_cmp(keys, #[trigger] s[k], x) <= 0,
        j < s.len() ==> order_cmp(keys, s[j], x) > 0,
    ensures
        insert_pos(keys, s, x) == j,
    decreases j,
{
    if j > 0 {
        let t = s.drop_first();
        assert(order_cmp(keys, s[0], x) <= 0);
        assert forall|k: int| 0 <= k < j - 1 implies order_cmp(keys, #[trigger] t[k], x) <= 0 by {
            assert(t[k] == s[k + 1]);
        }
        if j - 1 < t.len() {
            assert(t[j - 1] == s[j]);
        }
        lemma_insert_pos_at(keys, t, x, j - 1);
    }
}

/// Sorting yields rows in key order: each row sorts no later than the next,
/// so the first key decides and each later key breaks the ties left.
pub proof fn lemma_sort_rows_ordered(keys: Seq<Orderby>, rows: Seq<PasteView>)
    ensures
        is_ordered(keys, sort_rows(keys, rows)),
        sort_rows(keys, rows).len() == rows.len(),
    decreases rows.len(),
{
    if rows.len() > 0 {
        let s = sort_rows(keys, rows.drop_last());
        let x = rows.last();
        lemma_sort_rows_ordered(keys, rows.drop_last());
        lemma_insert_pos(keys, s, x);
        let p = insert_pos(keys, s, x) as int;
        let r = s.insert(p, x);
        assert forall|i: int| 0 <= i < r.len() - 1 implies order_cmp(keys, #[trigger] r[i], r[i + 1])
            <= 0 by {
            if i + 1 < p {
                assert(r[i] == s[i] && r[i + 1] == s[i + 1]);
            } else if i + 1 == p {
                assert(r[i] == s[i] && r[i + 1] == x);
            } else if i == p {
                assert(r[i] == x && r[i + 1] == s[p]);
                lemma_order_cmp_antisym(keys, s[p], x);
            } else {
                assert(r[i] == s[i - 1] && r[i + 1] == s[i]);
            }
        }
    }
}

/// A text compares equal to itself.
pub proof fn lemma_text_cmp_refl(a: Seq<char>)
    ensures
        text_cmp(a, a) == 0,
    decreases a.len(),
{
    if a.len() > 0 {
        lemma_text_cmp_refl(a.drop_first());
    }
}

/// The keys title ascending, then body ascending.
pub open spec fn title_body_keys() -> Seq<Orderby> {
    seq![
        Orderby { item: Item::Title, order: Order::Ascend },
        Orderby { item: Item::Body, order: Order::Ascend },
    ]
}

/// A list query ordered by title and then body returns rows by title, and
/// rows of equal title by body: the second key breaks the first one's ties.
pub proof fn lemma_title_ties_broken_by_body(d: ListQueryView, rows: Seq<PasteView>)
    requires
        d.orderby_list == Some(title_body_keys()),
        spec_select(d, rows) is Some,
    ensures
        ({
            let r = spec_select(d, rows)->0;
            forall|i: int|
                0 <= i < r.len() - 1 ==> {
                    &&& text_cmp(#[trigger] r[i].title, r[i + 1].title) <= 0
                    &&& r[i].title == r[i + 1].title ==> text_cmp(r[i].body, r[i + 1].body) <= 0
                }
        }),
{
    let keys = title_body_keys();
    let s = sort_rows(keys, matching_rows(d, rows));
    lemma_sort_rows_ordered(keys, matching_rows(d, rows));
    let r = spec_select(d, rows)->0;
    let lo = eff_offset(d) as int;
    let lo = if lo < s.len() { lo } else { s.len() as int };
    assert forall|i: int| 0 <= i < r.len() - 1 implies {
        &&& text_cmp(#[trigger] r[i].title, r[i + 1].title) <= 0
        &&& r[i].title == r[i + 1].title ==> text_cmp(r[i].body, r[i + 1].body) <= 0
    } by {
        assert(r[i] == s[lo + i] && r[i + 1] == s[lo + i + 1]);
        assert(order_cmp(keys, s[lo + i], s[lo + i + 1]) <= 0);
        lemma_column_cmp_range(Item::Title, r[i], r[i + 1]);
        let (a, b) = (r[i], r[i + 1]);
        let rest = keys.drop_first();
        assert(rest.drop_first() =~= Seq::<Orderby>::empty());
        assert(order_cmp(rest.drop_first(), a, b) == 0);
        assert(key_cmp(rest[0], a, b) == text_cmp(a.body, b.body));
        assert(order_cmp(rest, a, b) == if text_cmp(a.body, b.body) != 0 {
            text_cmp(a.body, b.body)
        } else {
            0
        });
        assert(key_cmp(keys[0], a, b) == text_cmp(a.title, b.title));
        assert(order_cmp(keys, a, b) == if text_cmp(a.title, b.title) != 0 {
            text_cmp(a.title, b.title)
        } else {
            order_cmp(rest, a, b)
        });
        if r[i].title == r[i + 1].title {
            lemma_text_cmp_refl(r[i].title);
        }
    }
}

/// The rows of `rows` that every step of a plan lets through, in table
/// order.
pub open spec fn kept_rows(steps: Seq<StepView>, rows: Seq<PasteView>) -> Seq<PasteView>
    decreases rows.len(),
{
    if rows.len() == 0 {
        rows
    } else if keeps_all(steps, rows.last()) {
        kept_rows(steps, rows.drop_last()).push(rows.last())
    } else {
        kept_rows(steps, rows.drop_last())
    }
}

/// What running a plan on a table returns: the rows its filters keep,
/// ordered by its sort keys, then the window of its last offset and limit.
/// A negative limit or offset is refused.
pub open spec fn spec_run(steps: Seq<StepView>, rows: Seq<PasteView>) -> Option<Seq<PasteView>> {
    let sh = apply_steps(plain_shape(), steps);
    if (sh.limit is Some && sh.limit->0 < 0) || (sh.offset is Some && sh.offset->0 < 0) {
        None
    } else {
        Some(
            window(
                sort_rows(sh.keys, kept_rows(steps, rows)),
                match sh.offset {
                    Some(o) => o as int,
                    None => 0,
                },
                match sh.limit {
                    Some(l) => Some(l as int),
                    None => None,
                },
            ),
        )
    }
}

proof fn lemma_kept_rows_match(d: ListQueryView, rows: Seq<PasteView>)
    ensures
        kept_rows(spec_plan(d), rows) == matching_rows(d, rows),
    decreases rows.len(),
{
    if rows.len() > 0 {
        lemma_kept_rows_match(d, rows.drop_last());
        lemma_plan_keeps(d, rows.last());
    }
}

/// Running the lowered plan of a list query returns what the query
/// selects.
pub proof fn lemma_plan_selects_query(d: ListQueryView, rows: Seq<PasteView>)
    ensures
        spec_run(spec_plan(d), rows) == spec_select(d, rows),
{
    lemma_kept_rows_match(d, rows);
    lemma_plan_shape(d);
}

pub open spec fn views(v: Seq<Paste>) -> Seq<PasteView> {
    v.map_values(|p: Paste| p@)
}

impl Paste {
    /// A copy of the row.
    pub fn copied(&self) -> (r: Paste)
        ensures
            r@ == self@,
    {
        Paste {
            id: self.id,
            title: self.title.clone(),
            body: self.body.clone(),
            created_at: self.created_at,
            modified_at: self.modified_at,
        }
    }
}

/// A paste table held in memory, ids handed out from 1 upwards: a reference
/// model of the storage contract, against which the handlers are stated and
/// tested. A relational store may differ where the contract leaves room:
/// Postgres orders text by its collation rather than by character code,
/// folds case for `ILIKE` by its locale, and gives no order to rows that
/// compare equal, where this table keeps insertion order.
pub struct MemStore {
    rows: Vec<Paste>,
    next_id: i64,
}

pub struct StoreView {
    pub rows: Seq<PasteView>,
    pub next_id: i64,
}

impl View for MemStore {
    type V = StoreView;

    closed spec fn view(&self) -> StoreView {
        StoreView { rows: views(self.rows@), next_id: self.next_id }
    }
}

impl StoreView {
    /// Ids are positive, below the next id to hand out, and unique.
    pub open spec fn wf(self) -> bool {
        &&& self.next_id >= 1
        &&& forall|i: int| 0 <= i < self.rows.len() ==> 1 <= #[trigger] self.rows[i].id < self.next_id
        &&& forall|i: int, j: int|
            0 <= i < j < self.rows.len() ==> #[trigger] self.rows[i].id != #[trigger] self.rows[j].id
    }
}

impl MemStore {
    pub open spec fn wf(&self) -> bool {
        self@.wf()
    }

    /// An empty table.
    pub fn new() -> (r: MemStore)
        ensures
            r.wf(),
            r@.rows.len() == 0,
            r@.next_id == 1,
    {
        let r = MemStore { rows: Vec::new(), next_id: 1 };
        assert(r@.rows =~= Seq::<PasteView>::empty());
        r
    }

    /// The rows, in table order.
    pub fn rows(&self) -> (r: &Vec<Paste>)
        ensures
            views(r@) == self@.rows,
    {
        &self.rows
    }

    fn position(&self, id: i64) -> (r: Option<usize>)
        ensures
            match r {
                Some(i) => index_of(self@.rows, id) == i,
                None => index_of(self@.rows, id) == -1,
            },
    {
        let mut i: usize = self.rows.len();
        assert(self@.rows.subrange(0, i as int) =~= self@.rows);
        while i > 0
            invariant
                i <= self.rows@.len(),
                index_of(self@.rows, id) == index_of(self@.rows.subrange(0, i as int), id),
            decreases i,
        {
            let ghost pre = self@.rows.subrange(0, i as int);
            assert(pre.last() == self.rows@[i - 1]@);
            if self.rows[i - 1].id == id {
                return Some(i - 1);
            }
            assert(pre.drop_last() =~= self@.rows.subrange(0, i - 1));
            i -= 1;
        }
        None
    }

    /// Stores a new row under the next id.
    pub fn insert(&mut self, p: NewPaste) -> (r: Result<Paste, StorageError>)
        requires
            old(self).wf(),
        ensures
            final(self).wf(),
            old(self)@.next_id < i64::MAX ==> {
                &&& r matches Ok(row)
                &&& row@ == (PasteView {
                    id: old(self)@.next_id,
                    title: p.title@,
                    body: p.body@,
                    created_at: p.created_at,
                    modified_at: p.modified_at,
                })
                &&& final(self)@.rows == old(self)@.rows.push(row@)
                &&& final(self)@.next_id == old(self)@.next_id + 1
            },
            old(self)@.next_id == i64::MAX ==> r == Err::<Paste, StorageError>(StorageError::Other)
                && final(self)@ == old(self)@,
    {
        if self.next_id == i64::MAX {
            return Err(StorageError::Other);
        }
        let row = Paste {
            id: self.next_id,
            title: p.title,
            body: p.body,
            created_at: p.created_at,
            modified_at: p.modified_at,
        };
        let out = row.copied();
        let ghost old_rows = self@.rows;
        self.rows.push(row);
        self.next_id = self.next_id + 1;
        assert(self@.rows =~= old_rows.push(out@));
        Ok(out)
    }

    /// The row with id `id`.
    pub fn find(&self, id: i64) -> (r: Result<Paste, StorageError>)
        ensures
            index_of(self@.rows, id) >= 0 ==> (r matches Ok(row) && row@ == self@.rows[index_of(
                self@.rows,
                id,
            )]),
            index_of(self@.rows, id) == -1 ==> r == Err::<Paste, StorageError>(StorageError::NotFound),
    {
        proof {
            lemma_index_of(self@.rows, id);
        }
        match self.position(id) {
            Some(i) => Ok(self.rows[i].copied()),
            None => Err(StorageError::NotFound),
        }
    }

    /// Overwrites the title, body and modification time of the row with id
    /// `id`; its id and creation time stay.
    pub fn update(&mut self, id: i64, title: String, body: String, modified_at: Timestamp) -> (r:
        Result<Paste, StorageError>)
        requires
            old(self).wf(),
        ensures
            final(self).wf(),
            final(self)@.next_id == old(self)@.next_id,
            ({
                let i = index_of(old(self)@.rows, id);
                if i >= 0 {
                    let before = old(self)@.rows[i];
                    let after = PasteView { title: title@, body: body@, modified_at, ..before };
                    &&& r matches Ok(row)
                    &&& row@ == after
                    &&& final(self)@.rows == old(self)@.rows.update(i, after)
                } else {
                    &&& r == Err::<Paste, StorageError>(StorageError::NotFound)
                    &&& final(self)@ == old(self)@
                }
            }),
    {
        proof {
            lemma_index_of(self@.rows, id);
        }
        match self.position(id) {
            Some(i) => {
                let ghost old_rows = self@.rows;
                let before = self.rows[i].copied();
                let row = Paste {
                    id: before.id,
                    title,
                    body,
                    created_at: before.created_at,
                    modified_at,
                };
                let out = row.copied();
                self.rows.set(i, row);
                assert(self@.rows =~= old_rows.update(i as int, out@));
                assert forall|a: int, b: int|
                    0 <= a < b < self@.rows.len() implies #[trigger] self@.rows[a].id
                    != #[trigger] self@.rows[b].id by {
                    assert(old_rows[a].id == self@.rows[a].id);
                    assert(old_rows[b].id == self@.rows[b].id);
                }
                assert forall|a: int| 0 <= a < self@.rows.len() implies 1 <= #[trigger] self@.rows[a].id
                    < self@.next_id by {
                    assert(old_rows[a].id == self@.rows[a].id);
                }
                Ok(out)
            },
            None => Err(StorageError::NotFound),
        }
    }

    /// Runs a plan: the rows that every step lets through, ordered by its
    /// sort keys, then the window of its offset and limit. A negative limit
    /// or offset is refused.
    pub fn run(&self, steps: &Vec<QueryStep>) -> (r: Result<Vec<Paste>, StorageError>)
        ensures
            match spec_run(step_views(steps@), self@.rows) {
                Some(s) => r matches Ok(v) && views(v@) == s,
                None => r == Err::<Vec<Paste>, StorageError>(StorageError::Other),
            },
    {
        let (keys, limit, offset_opt) = plan_shape(steps);
        let offset: i64 = match offset_opt {
            Some(o) => o,
            None => 0,
        };
        if offset < 0 {
            return Err(StorageError::Other);
        }
        if let Some(l) = limit {
            if l < 0 {
                return Err(StorageError::Other);
            }
        }
        let ghost d = step_views(steps@);
        let ghost all = self@.rows;
        let mut kept: Vec<Paste> = Vec::new();
        let mut i: usize = 0;
        assert(views(kept@) =~= kept_rows(d, all.subrange(0, 0)));
        while i < self.rows.len()
            invariant
                i <= self.rows@.len(),
                d == step_views(steps@),
                all == self@.rows,
                all.len() == self.rows@.len(),
                views(kept@) == kept_rows(d, all.subrange(0, i as int)),
            decreases self.rows.len() - i,
        {
            let ghost pre = all.subrange(0, i as int + 1);
            assert(pre.drop_last() =~= all.subrange(0, i as int));
            assert(pre.last() == self.rows@[i as int]@);
            if keeps_row(steps, &self.rows[i]) {
                let ghost before = kept@;
                kept.push(self.rows[i].copied());
                assert(views(kept@) =~= views(before).push(self.rows@[i as int]@));
            }
            i += 1;
        }
        assert(all.subrange(0, all.len() as int) =~= all);
        let keys = &keys;
        let ghost ks = keys@;
        let ghost kv = views(kept@);
        let mut sorted: Vec<Paste> = Vec::new();
        let mut i: usize = 0;
        assert(views(sorted@) =~= sort_rows(ks, kv.subrange(0, 0)));
        while i < kept.len()
            invariant
                i <= kept@.len(),
                ks == keys@,
                kv == views(kept@),
                kv.len() == kept@.len(),
                views(sorted@) == sort_rows(ks, kv.subrange(0, i as int)),
            decreases kept.len() - i,
        {
            let x = kept[i].copied();
            let ghost s = views(sorted@);
            let mut j: usize = 0;
            let mut found = false;
            while !found && j < sorted.len()
                invariant
                    j <= sorted@.len(),
                    s == views(sorted@),
                    s.len() == sorted@.len(),
                    ks == keys@,
                    forall|k: int| 0 <= k < j ==> order_cmp(ks, #[trigger] s[k], x@) <= 0,
                    found ==> j < s.len() && order_cmp(ks, s[j as int], x@) > 0,
                decreases sorted.len() - j, if found { 0int } else { 1int },
            {
                assert(s[j as int] == sorted@[j as int]@);
                if compare_rows(keys, &sorted[j], &x) > 0 {
                    found = true;
                } else {
                    j += 1;
                }
            }
            proof {
                lemma_insert_pos_at(ks, s, x@, j as int);
            }
            let ghost pre = kv.subrange(0, i as int + 1);
            assert(pre.drop_last() =~= kv.subrange(0, i as int));
            assert(pre.last() == x@);
            sorted.insert(j, x);
            assert(views(sorted@) =~= s.insert(j as int, x@));
            i += 1;
        }
        assert(kv.subrange(0, kv.len() as int) =~= kv);
        let n = sorted.len();
        let lo: usize = if (offset as u128) < (n as u128) {
            offset as usize
        } else {
            n
        };
        let hi: usize = match limit {
            Some(l) => if (lo as u128) + (l as u128) < (n as u128) {
                lo + l as usize
            } else {
                n
            },
            None => n,
        };
        let ghost sv = views(sorted@);
        let mut out: Vec<Paste> = Vec::new();
        let mut k: usize = lo;
        while k < hi
            invariant
                lo <= k <= hi,
                hi <= n,
                n == sorted@.len(),
                sv == views(sorted@),
                views(out@) == sv.subrange(lo as int, k as int),
            decreases hi - k,
        {
            let ghost before = out@;
            out.push(sorted[k].copied());
            assert(views(out@) =~= views(before).push(sv[k as int]));
            assert(sv.subrange(lo as int, k as int + 1) =~= sv.subrange(lo as int, k as int).push(sv[k as int]));
            k += 1;
        }
        assert(views(out@) =~= spec_run(step_views(steps@), self@.rows)->0);
        Ok(out)
    }

    /// Runs a list query through its lowered plan: the rows that pass its
    /// filters, ordered by its keys, then the window of its offset and
    /// limit. A negative limit or offset is refused.
    pub fn load(&self, msg: &GetPasteListMsg) -> (r: Result<Vec<Paste>, StorageError>)
        ensures
            match spec_select(msg@, self@.rows) {
                Some(s) => r matches Ok(v) && views(v@) == s,
                None => r == Err::<Vec<Paste>, StorageError>(StorageError::Other),
            },
    {
        let steps = build_query(msg);
        proof {
            lemma_plan_selects_query(msg@, self@.rows);
        }
        self.run(&steps)
    }

    /// Removes the row with id `id`, if any; returns how many rows went.
    pub fn delete(&mut self, id: i64) -> (r: usize)
        requires
            old(self).wf(),
        ensures
            final(self).wf(),
            final(self)@.next_id == old(self)@.next_id,
            ({
                let i = index_of(old(self)@.rows, id);
                if i >= 0 {
                    r == 1 && final(self)@.rows == old(self)@.rows.remove(i)
                } else {
                    r == 0 && final(self)@ == old(self)@
                }
            }),
    {
        proof {
            lemma_index_of(self@.rows, id);
        }
        match self.position(id) {
            Some(i) => {
                let ghost old_rows = self@.rows;
                self.rows.remove(i);
                assert(self@.rows =~= old_rows.remove(i as int));
                assert forall|a: int, b: int|
                    0 <= a < b < self@.rows.len() implies #[trigger] self@.rows[a].id
                    != #[trigger] self@.rows[b].id by {
                    let a0 = if a < i { a } else { a + 1 };
                    let b0 = if b < i { b } else { b + 1 };
                    assert(old_rows[a0].id == self@.rows[a].id);
                    assert(old_rows[b0].id == self@.rows[b].id);
                }
                assert forall|a: int| 0 <= a < self@.rows.len() implies 1 <= #[trigger] self@.rows[a].id
                    < self@.next_id by {
                    let a0 = if a < i { a } else { a + 1 };
                    assert(old_rows[a0].id == self@.rows[a].id);
                }
                1
            },
            None => 0,
        }
    }
}

} // verus!
