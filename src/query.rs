//! The list query descriptor, its lowering into storage steps, and what a
//! list query selects from a set of rows.

use vstd::prelude::*;

use crate::cond::{CmpOp, Item, Order, Orderby, TimeCondition};
use crate::paste::{spec_ts_cmp, Paste, PasteView, Timestamp};
use crate::text::{is_prefix, lower_of, to_lower};

verus! {

/// The limit a list query gets when the request names none.
pub const DEFAULT_LIMIT: i64 = 20;

/// A list query: optional prefix patterns, time conditions and order list,
/// and the window of rows to return.
#[derive(Debug)]
pub struct GetPasteListMsg {
    pub title_pat: Option<String>,
    pub body_pat: Option<String>,
    pub created_at: Option<TimeCondition>,
    pub modified_at: Option<TimeCondition>,
    pub orderby_list: Option<Vec<Orderby>>,
    pub limit: Option<i64>,
    pub offset: Option<i64>,
}

pub struct ListQueryView {
    pub title_pat: Option<Seq<char>>,
    pub body_pat: Option<Seq<char>>,
    pub created_at: Option<TimeCondition>,
    pub modified_at: Option<TimeCondition>,
    pub orderby_list: Option<Seq<Orderby>>,
    pub limit: Option<i64>,
    pub offset: Option<i64>,
}

pub open spec fn opt_text(o: Option<String>) -> Option<Seq<char>> {
    match o {
        Some(s) => Some(s@),
        None => None,
    }
}

impl View for GetPasteListMsg {
    type V = ListQueryView;

    open spec fn view(&self) -> ListQueryView {
        ListQueryView {
            title_pat: opt_text(self.title_pat),
            body_pat: opt_text(self.body_pat),
            created_at: self.created_at,
            modified_at: self.modified_at,
            orderby_list: match self.orderby_list {
                Some(l) => Some(l@),
                None => None,
            },
            limit: self.limit,
            offset: self.offset,
        }
    }
}

impl Default for GetPasteListMsg {
    /// No filters and no order; the first twenty rows.
    fn default() -> (r: GetPasteListMsg)
        ensures
            r@.title_pat is None,
            r@.body_pat is None,
            r@.created_at is None,
            r@.modified_at is None,
            r@.orderby_list is None,
            r@.limit == Some(DEFAULT_LIMIT),
            r@.offset == Some(0i64),
    {
        GetPasteListMsg {
            title_pat: None,
            body_pat: None,
            created_at: None,
            modified_at: None,
            orderby_list: None,
            limit: Some(DEFAULT_LIMIT),
            offset: Some(0),
        }
    }
}

/// One storage operation of a lowered list query.
#[derive(Debug)]
pub enum QueryStep {
    /// Keep rows whose title starts with the pattern, ignoring case.
    TitlePrefix(String),
    /// Keep rows whose body starts with the pattern, ignoring case.
    BodyPrefix(String),
    /// Keep rows whose creation time satisfies the condition.
    CreatedAt(TimeCondition),
    /// Keep rows whose modification time satisfies the condition.
    ModifiedAt(TimeCondition),
    /// Add a sort key after those already applied.
    OrderBy(Orderby),
    /// Return at most this many rows.
    Limit(i64),
    /// Skip this many rows first.
    Offset(i64),
}

pub enum StepView {
    TitlePrefix(Seq<char>),
    BodyPrefix(Seq<char>),
    CreatedAt(TimeCondition),
    ModifiedAt(TimeCondition),
    OrderBy(Orderby),
    Limit(i64),
    Offset(i64),
}

impl View for QueryStep {
    type V = StepView;

    open spec fn view(&self) -> StepView {
        match self {
            QueryStep::TitlePrefix(p) => StepView::TitlePrefix(p@),
            QueryStep::BodyPrefix(p) => StepView::BodyPrefix(p@),
            QueryStep::CreatedAt(c) => StepView::CreatedAt(*c),
            QueryStep::ModifiedAt(c) => StepView::ModifiedAt(*c),
            QueryStep::OrderBy(o) => StepView::OrderBy(*o),
            QueryStep::Limit(n) => StepView::Limit(*n),
            QueryStep::Offset(n) => StepView::Offset(*n),
        }
    }
}

pub open spec fn step_views(v: Seq<QueryStep>) -> Seq<StepView> {
    v.map_values(|s: QueryStep| s@)
}

pub open spec fn opt_step<T>(o: Option<T>, f: spec_fn(T) -> StepView) -> Seq<StepView> {
    match o {
        Some(x) => seq![f(x)],
        None => Seq::empty(),
    }
}

/// The limit a query applies: the one it names, else the default of 20.
pub open spec fn eff_limit(d: ListQueryView) -> i64 {
    match d.limit {
        Some(l) => l,
        None => DEFAULT_LIMIT,
    }
}

/// The offset a query applies: the one it names, else 0.
pub open spec fn eff_offset(d: ListQueryView) -> i64 {
    match d.offset {
        Some(o) => o,
        None => 0,
    }
}

/// The steps a query lowers to, always in this order: title prefix, body
/// prefix, creation time, modification time, the sort keys in list order,
/// limit, offset. Each filter and sort key is there exactly when the query
/// names it; the limit (20 when absent) and the offset (0 when absent) are
/// always there.
pub open spec fn spec_plan(d: ListQueryView) -> Seq<StepView> {
    opt_step(d.title_pat, |p: Seq<char>| StepView::TitlePrefix(p))
        + opt_step(d.body_pat, |p: Seq<char>| StepView::BodyPrefix(p))
        + opt_step(d.created_at, |c: TimeCondition| StepView::CreatedAt(c))
        + opt_step(d.modified_at, |c: TimeCondition| StepView::ModifiedAt(c))
        + match d.orderby_list {
            Some(l) => l.map_values(|o: Orderby| StepView::OrderBy(o)),
            None => Seq::empty(),
        }
        + seq![StepView::Limit(eff_limit(d))]
        + seq![StepView::Offset(eff_offset(d))]
}

fn push_text_step(steps: &mut Vec<QueryStep>, pat: &Option<String>, title: bool)
    ensures
        step_views(final(steps)@) == step_views(old(steps)@) + opt_step(
            opt_text(*pat),
            |p: Seq<char>| if title {
                StepView::TitlePrefix(p)
            } else {
                StepView::BodyPrefix(p)
            },
        ),
{
    match pat {
        Some(p) => {
            let s = if title {
                QueryStep::TitlePrefix(p.clone())
            } else {
                QueryStep::BodyPrefix(p.clone())
            };
            steps.push(s);
        },
        None => {},
    }
    assert(step_views(steps@) =~= step_views(old(steps)@) + opt_step(
        opt_text(*pat),
        |p: Seq<char>| if title {
            StepView::TitlePrefix(p)
        } else {
            StepView::BodyPrefix(p)
        },
    ));
}

/// Lowers a list query into its storage steps.
pub fn build_query(msg: &GetPasteListMsg) -> (r: Vec<QueryStep>)
    ensures
        step_views(r@) == spec_plan(msg@),
{
    let mut steps: Vec<QueryStep> = Vec::new();
    push_text_step(&mut steps, &msg.title_pat, true);
    push_text_step(&mut steps, &msg.body_pat, false);
    assert(opt_step(opt_text(msg.title_pat), |p: Seq<char>| StepView::TitlePrefix(p))
        =~= opt_step(opt_text(msg.title_pat), |p: Seq<char>| if true {
            StepView::TitlePrefix(p)
        } else {
            StepView::BodyPrefix(p)
        }));
    assert(opt_step(opt_text(msg.body_pat), |p: Seq<char>| StepView::BodyPrefix(p))
        =~= opt_step(opt_text(msg.body_pat), |p: Seq<char>| if false {
            StepView::TitlePrefix(p)
        } else {
            StepView::BodyPrefix(p)
        }));
    let ghost before = step_views(steps@);
    if let Some(c) = msg.created_at {
        steps.push(QueryStep::CreatedAt(c));
    }
    if let Some(c) = msg.modified_at {
        steps.push(QueryStep::ModifiedAt(c));
    }
    assert(step_views(steps@) =~= before + opt_step(
        msg.created_at,
        |c: TimeCondition| StepView::CreatedAt(c),
    ) + opt_step(msg.modified_at, |c: TimeCondition| StepView::ModifiedAt(c)));
    let ghost before = step_views(steps@);
    if let Some(list) = &msg.orderby_list {
        let mut i: usize = 0;
        while i < list.len()
            invariant
                i <= list@.len(),
                step_views(steps@) == before + list@.subrange(0, i as int).map_values(
                    |o: Orderby| StepView::OrderBy(o),
                ),
            decreases list.len() - i,
        {
            let ghost prev = steps@;
            let o = list[i];
            steps.push(QueryStep::OrderBy(o));
            assert(step_views(steps@) =~= step_views(prev).push(StepView::OrderBy(o)));
            assert(list@.subrange(0, i as int + 1) =~= list@.subrange(0, i as int).push(
                list@[i as int],
            ));
            assert(step_views(steps@) =~= before + list@.subrange(0, i as int + 1).map_values(
                |o: Orderby| StepView::OrderBy(o),
            ));
            i += 1;
        }
        assert(list@.subrange(0, list@.len() as int) =~= list@);
    } else {
        assert(step_views(steps@) =~= before + Seq::<StepView>::empty());
    }
    let ghost before = step_views(steps@);
    let limit: i64 = match msg.limit {
        Some(n) => n,
        None => DEFAULT_LIMIT,
    };
    let offset: i64 = match msg.offset {
        Some(n) => n,
        None => 0,
    };
    steps.push(QueryStep::Limit(limit));
    steps.push(QueryStep::Offset(offset));
    assert(step_views(steps@) =~= before + seq![StepView::Limit(eff_limit(msg@))]
        + seq![StepView::Offset(eff_offset(msg@))]);
    assert(step_views(steps@) =~= spec_plan(msg@));
    steps
}

/// Whether a comparison whose outcome is `c` (-1, 0, 1) satisfies `op`.
pub open spec fn cmp_holds(op: CmpOp, c: int) -> bool {
    match op {
        CmpOp::GT => c > 0,
        CmpOp::EQ => c == 0,
        CmpOp::LT => c < 0,
        CmpOp::GE => c >= 0,
        CmpOp::LE => c <= 0,
    }
}

/// Whether time `t` satisfies the optional condition `c`.
pub open spec fn time_matches(c: Option<TimeCondition>, t: Timestamp) -> bool {
    match c {
        Some(c) => cmp_holds(c.op, spec_ts_cmp(t, c.time)),
        None => true,
    }
}

/// Whether text `t` starts with the optional pattern `p`, ignoring case.
pub open spec fn prefix_matches(p: Option<Seq<char>>, t: Seq<char>) -> bool {
    match p {
        Some(p) => is_prefix(lower_of(p), lower_of(t)),
        None => true,
    }
}

/// Whether a row passes every filter the query names. Each filter is
/// independent of the others: a row is kept when all present filters keep it.
pub open spec fn spec_row_matches(d: ListQueryView, r: PasteView) -> bool {
    &&& prefix_matches(d.title_pat, r.title)
    &&& prefix_matches(d.body_pat, r.body)
    &&& time_matches(d.created_at, r.created_at)
    &&& time_matches(d.modified_at, r.modified_at)
}

/// Lexicographic comparison of two texts by character code: -1, 0 or 1.
pub open spec fn text_cmp(a: Seq<char>, b: Seq<char>) -> int
    decreases a.len(),
{
    if a.len() == 0 {
        if b.len() == 0 {
            0
        } else {
            -1
        }
    } else if b.len() == 0 {
        1
    } else if (a[0] as u32) < (b[0] as u32) {
        -1
    } else if (a[0] as u32) > (b[0] as u32) {
        1
    } else {
        text_cmp(a.drop_first(), b.drop_first())
    }
}

/// Compares two rows on one column, ascending.
pub open spec fn column_cmp(item: Item, a: PasteView, b: PasteView) -> int {
    match item {
        Item::Title => text_cmp(a.title, b.title),
        Item::Body => text_cmp(a.body, b.body),
        Item::CreatedAt => spec_ts_cmp(a.created_at, b.created_at),
        Item::ModifiedAt => spec_ts_cmp(a.modified_at, b.modified_at),
    }
}

/// Compares two rows on one sort key.
pub open spec fn key_cmp(k: Orderby, a: PasteView, b: PasteView) -> int {
    match k.order {
        Order::Ascend => column_cmp(k.item, a, b),
        Order::Decrease => -column_cmp(k.item, a, b),
    }
}

/// Compares two rows on a list of sort keys: the first key decides, each
/// later key only breaks the ties of those before it.
pub open spec fn order_cmp(keys: Seq<Orderby>, a: PasteView, b: PasteView) -> int
    decreases keys.len(),
{
    if keys.len() == 0 {
        0
    } else if key_cmp(keys[0], a, b) != 0 {
        key_cmp(keys[0], a, b)
    } else {
        order_cmp(keys.drop_first(), a, b)
    }
}

/// Text comparison yields -1, 0 or 1.
pub proof fn lemma_text_cmp_range(a: Seq<char>, b: Seq<char>)
    ensures
        -1 <= text_cmp(a, b) <= 1,
    decreases a.len(),
{
    if a.len() > 0 && b.len() > 0 {
        lemma_text_cmp_range(a.drop_first(), b.drop_first());
    }
}

/// Column comparison yields -1, 0 or 1.
pub proof fn lemma_column_cmp_range(item: Item, a: PasteView, b: PasteView)
    ensures
        -1 <= column_cmp(item, a, b) <= 1,
{
    lemma_text_cmp_range(a.title, b.title);
    lemma_text_cmp_range(a.body, b.body);
}

/// Compares two texts by character code: -1, 0 or 1.
pub fn compare_text(a: &str, b: &str) -> (r: i8)
    ensures
        r as int == text_cmp(a@, b@),
{
    let na = a.unicode_len();
    let nb = b.unicode_len();
    let mut i: usize = 0;
    assert(a@.subrange(0, na as int) =~= a@);
    assert(b@.subrange(0, nb as int) =~= b@);
    while i < na && i < nb
        invariant
            na == a@.len(),
            nb == b@.len(),
            i <= na,
            i <= nb,
            text_cmp(a@, b@) == text_cmp(a@.subrange(i as int, na as int), b@.subrange(i as int, nb as int)),
        decreases na - i,
    {
        let ca = a.get_char(i);
        let cb = b.get_char(i);
        let ghost sa = a@.subrange(i as int, na as int);
        let ghost sb = b@.subrange(i as int, nb as int);
        assert(sa[0] == ca && sb[0] == cb);
        if (ca as u32) < (cb as u32) {
            return -1;
        }
        if (ca as u32) > (cb as u32) {
            return 1;
        }
        assert(sa.drop_first() =~= a@.subrange(i as int + 1, na as int));
        assert(sb.drop_first() =~= b@.subrange(i as int + 1, nb as int));
        i += 1;
    }
    if i < na {
        1
    } else if i < nb {
        -1
    } else {
        0
    }
}

/// Compares two rows on one column, ascending.
pub fn compare_column(item: Item, a: &Paste, b: &Paste) -> (r: i8)
    ensures
        r as int == column_cmp(item, a@, b@),
{
    match item {
        Item::Title => compare_text(a.title.as_str(), b.title.as_str()),
        Item::Body => compare_text(a.body.as_str(), b.body.as_str()),
        Item::CreatedAt => a.created_at.compare(&b.created_at),
        Item::ModifiedAt => a.modified_at.compare(&b.modified_at),
    }
}

/// Compares two rows on a list of sort keys, first key first.
pub fn compare_rows(keys: &Vec<Orderby>, a: &Paste, b: &Paste) -> (r: i8)
    ensures
        r as int == order_cmp(keys@, a@, b@),
{
    let mut i: usize = 0;
    assert(keys@.subrange(0, keys@.len() as int) =~= keys@);
    while i < keys.len()
        invariant
            i <= keys@.len(),
            order_cmp(keys@, a@, b@) == order_cmp(keys@.subrange(i as int, keys@.len() as int), a@, b@),
        decreases keys.len() - i,
    {
        let k = keys[i];
        let ghost rest = keys@.subrange(i as int, keys@.len() as int);
        assert(rest[0] == k);
        assert(rest.drop_first() =~= keys@.subrange(i as int + 1, keys@.len() as int));
        let c = compare_column(k.item, a, b);
        proof {
            lemma_column_cmp_range(k.item, a@, b@);
        }
        if c != 0 {
            return match k.order {
                Order::Ascend => c,
                Order::Decrease => -c,
            };
        }
        i += 1;
    }
    0
}

/// Whether `p` is a prefix of `t`.
pub fn starts_with_text(p: &str, t: &str) -> (r: bool)
    ensures
        r == is_prefix(p@, t@),
{
    let np = p.unicode_len();
    let nt = t.unicode_len();
    if np > nt {
        return false;
    }
    let mut i: usize = 0;
    while i < np
        invariant
            np == p@.len(),
            nt == t@.len(),
            np <= nt,
            i <= np,
            t@.subrange(0, i as int) == p@.subrange(0, i as int),
        decreases np - i,
    {
        if p.get_char(i) != t.get_char(i) {
            assert(t@.subrange(0, np as int)[i as int] != p@[i as int]);
            return false;
        }
        assert(t@.subrange(0, i as int + 1) =~= t@.subrange(0, i as int).push(t@[i as int]));
        assert(p@.subrange(0, i as int + 1) =~= p@.subrange(0, i as int).push(p@[i as int]));
        i += 1;
    }
    assert(p@.subrange(0, np as int) =~= p@);
    true
}

/// Whether `c` has a meaning of its own in a `LIKE` pattern.
pub open spec fn is_like_special(c: char) -> bool {
    c == '%' || c == '_' || c == '\\'
}

/// `p` with each `%`, `_` and `\` preceded by a backslash, so that a `LIKE`
/// pattern built from it matches those characters literally.
pub open spec fn like_escape(p: Seq<char>) -> Seq<char>
    decreases p.len(),
{
    if p.len() == 0 {
        p
    } else {
        let e = like_escape(p.drop_last());
        if is_like_special(p.last()) {
            e.push('\\').push(p.last())
        } else {
            e.push(p.last())
        }
    }
}

/// The `LIKE` pattern that matches exactly the texts starting with `p`:
/// `p` escaped, then `%`.
pub fn like_prefix(p: &str) -> (r: String)
    ensures
        r@ == like_escape(p@).push('%'),
{
    proof {
        reveal_strlit("\\");
        reveal_strlit("%");
    }
    let n = p.unicode_len();
    let mut r = String::new();
    let mut i: usize = 0;
    while i < n
        invariant
            n == p@.len(),
            i <= n,
            r@ == like_escape(p@.subrange(0, i as int)),
        decreases n - i,
    {
        let ghost pre = p@.subrange(0, i as int + 1);
        assert(pre.drop_last() =~= p@.subrange(0, i as int));
        let c = p.get_char(i);
        assert(pre.last() == c);
        let ghost before = r@;
        if c == '%' || c == '_' || c == '\\' {
            proof {
                reveal_strlit("\\");
            }
            assert("\\"@ =~= seq!['\\']);
            r.append("\\");
            assert(r@ =~= before.push('\\'));
        }
        let one = p.substring_char(i, i + 1);
        assert(one@ =~= seq![c]);
        r.append(one);
        assert(r@ =~= like_escape(pre));
        i += 1;
    }
    assert(p@.subrange(0, n as int) =~= p@);
    assert("%"@ =~= seq!['%']);
    r.append("%");
    assert(r@ =~= like_escape(p@).push('%'));
    r
}

/// Whether text `t` starts with pattern `p`, ignoring case.
fn prefix_holds(p: &str, t: &str) -> (r: bool)
    ensures
        r == is_prefix(lower_of(p@), lower_of(t@)),
{
    let lp = to_lower(p);
    let lt = to_lower(t);
    starts_with_text(lp.as_str(), lt.as_str())
}

/// Whether a time satisfies a condition.
pub fn time_holds(c: &TimeCondition, t: &Timestamp) -> (r: bool)
    ensures
        r == time_matches(Some(*c), *t),
{
    let v = t.compare(&c.time);
    match c.op {
        CmpOp::GT => v > 0,
        CmpOp::EQ => v == 0,
        CmpOp::LT => v < 0,
        CmpOp::GE => v >= 0,
        CmpOp::LE => v <= 0,
    }
}

/// Whether one step lets a row through; steps that do not filter let every
/// row through.
pub open spec fn step_keeps(s: StepView, r: PasteView) -> bool {
    match s {
        StepView::TitlePrefix(p) => prefix_matches(Some(p), r.title),
        StepView::BodyPrefix(p) => prefix_matches(Some(p), r.body),
        StepView::CreatedAt(c) => time_matches(Some(c), r.created_at),
        StepView::ModifiedAt(c) => time_matches(Some(c), r.modified_at),
        _ => true,
    }
}

/// Whether every step of a plan lets a row through.
pub open spec fn keeps_all(steps: Seq<StepView>, r: PasteView) -> bool {
    forall|i: int| 0 <= i < steps.len() ==> step_keeps(#[trigger] steps[i], r)
}

/// The ordering and window a plan asks for: its sort keys in the order of
/// the steps, and the last limit and offset it names.
pub struct Shape {
    pub keys: Seq<Orderby>,
    pub limit: Option<i64>,
    pub offset: Option<i64>,
}

pub open spec fn add_step(sh: Shape, s: StepView) -> Shape {
    match s {
        StepView::OrderBy(o) => Shape { keys: sh.keys.push(o), ..sh },
        StepView::Limit(n) => Shape { limit: Some(n), ..sh },
        StepView::Offset(n) => Shape { offset: Some(n), ..sh },
        _ => sh,
    }
}

/// The shape after applying `steps`, in order, to `sh`.
pub open spec fn apply_steps(sh: Shape, steps: Seq<StepView>) -> Shape
    decreases steps.len(),
{
    if steps.len() == 0 {
        sh
    } else {
        add_step(apply_steps(sh, steps.drop_last()), steps.last())
    }
}

pub open spec fn plain_shape() -> Shape {
    Shape { keys: Seq::empty(), limit: None, offset: None }
}

pub open spec fn query_keys(d: ListQueryView) -> Seq<Orderby> {
    match d.orderby_list {
        Some(l) => l,
        None => Seq::empty(),
    }
}

proof fn lemma_apply_concat(sh: Shape, a: Seq<StepView>, b: Seq<StepView>)
    ensures
        apply_steps(sh, a + b) == apply_steps(apply_steps(sh, a), b),
    decreases b.len(),
{
    if b.len() == 0 {
        assert(a + b =~= a);
    } else {
        lemma_apply_concat(sh, a, b.drop_last());
        assert((a + b).drop_last() =~= a + b.drop_last());
        assert((a + b).last() == b.last());
    }
}

proof fn lemma_apply_one(sh: Shape, x: StepView)
    ensures
        apply_steps(sh, seq![x]) == add_step(sh, x),
{
    assert(seq![x].drop_last() =~= Seq::<StepView>::empty());
    assert(apply_steps(sh, Seq::<StepView>::empty()) == sh);
    assert(seq![x].last() == x);
}

proof fn lemma_apply_orderbys(sh: Shape, l: Seq<Orderby>)
    ensures
        apply_steps(sh, l.map_values(|o: Orderby| StepView::OrderBy(o))) == (Shape {
            keys: sh.keys + l,
            ..sh
        }),
    decreases l.len(),
{
    let m = l.map_values(|o: Orderby| StepView::OrderBy(o));
    if l.len() == 0 {
        assert(m.len() == 0);
        assert(sh.keys + l =~= sh.keys);
    } else {
        lemma_apply_orderbys(sh, l.drop_last());
        assert(m.drop_last() =~= l.drop_last().map_values(|o: Orderby| StepView::OrderBy(o)));
        assert((sh.keys + l.drop_last()).push(l.last()) =~= sh.keys + l);
    }
}

proof fn lemma_keeps_concat(a: Seq<StepView>, b: Seq<StepView>, r: PasteView)
    ensures
        keeps_all(a + b, r) == (keeps_all(a, r) && keeps_all(b, r)),
{
    if keeps_all(a + b, r) {
        assert forall|i: int| 0 <= i < a.len() implies step_keeps(#[trigger] a[i], r) by {
            assert((a + b)[i] == a[i]);
        }
        assert forall|i: int| 0 <= i < b.len() implies step_keeps(#[trigger] b[i], r) by {
            assert((a + b)[a.len() + i] == b[i]);
        }
    }
    if keeps_all(a, r) && keeps_all(b, r) {
        assert forall|i: int| 0 <= i < (a + b).len() implies step_keeps(#[trigger] (a + b)[i], r) by {
            if i < a.len() {
                assert((a + b)[i] == a[i]);
            } else {
                assert((a + b)[i] == b[i - a.len()]);
            }
        }
    }
}

/// The lowered plan keeps exactly the rows the query's filters keep.
pub proof fn lemma_plan_keeps(d: ListQueryView, r: PasteView)
    ensures
        keeps_all(spec_plan(d), r) == spec_row_matches(d, r),
{
    let ft = opt_step(d.title_pat, |p: Seq<char>| StepView::TitlePrefix(p));
    let fb = opt_step(d.body_pat, |p: Seq<char>| StepView::BodyPrefix(p));
    let fc = opt_step(d.created_at, |c: TimeCondition| StepView::CreatedAt(c));
    let fm = opt_step(d.modified_at, |c: TimeCondition| StepView::ModifiedAt(c));
    let ko = match d.orderby_list {
        Some(l) => l.map_values(|o: Orderby| StepView::OrderBy(o)),
        None => Seq::empty(),
    };
    let fl = seq![StepView::Limit(eff_limit(d))];
    let fo = seq![StepView::Offset(eff_offset(d))];
    let p1 = ft + fb;
    let p2 = p1 + fc;
    let p3 = p2 + fm;
    let p4 = p3 + ko;
    let p5 = p4 + fl;
    assert(spec_plan(d) == p5 + fo);

    lemma_keeps_concat(ft, fb, r);
    lemma_keeps_concat(p1, fc, r);
    lemma_keeps_concat(p2, fm, r);
    lemma_keeps_concat(p3, ko, r);
    lemma_keeps_concat(p4, fl, r);
    lemma_keeps_concat(p5, fo, r);
    assert(keeps_all(ft, r) == prefix_matches(d.title_pat, r.title)) by {
        if d.title_pat is Some {
            assert(ft[0] == StepView::TitlePrefix(d.title_pat->0));
        }
    }
    assert(keeps_all(fb, r) == prefix_matches(d.body_pat, r.body)) by {
        if d.body_pat is Some {
            assert(fb[0] == StepView::BodyPrefix(d.body_pat->0));
        }
    }
    assert(keeps_all(fc, r) == time_matches(d.created_at, r.created_at)) by {
        if d.created_at is Some {
            assert(fc[0] == StepView::CreatedAt(d.created_at->0));
        }
    }
    assert(keeps_all(fm, r) == time_matches(d.modified_at, r.modified_at)) by {
        if d.modified_at is Some {
            assert(fm[0] == StepView::ModifiedAt(d.modified_at->0));
        }
    }
    assert(keeps_all(ko, r)) by {
        assert forall|i: int| 0 <= i < ko.len() implies step_keeps(#[trigger] ko[i], r) by {
            assert(ko[i] is OrderBy);
        }
    }
    assert(keeps_all(fl, r)) by {
        assert(fl[0] == StepView::Limit(eff_limit(d)));
    }
    assert(keeps_all(fo, r)) by {
        assert(fo[0] == StepView::Offset(eff_offset(d)));
    }
}

/// The lowered plan asks for the query's sort keys, and for its limit and
/// offset with their defaults.
pub proof fn lemma_plan_shape(d: ListQueryView)
    ensures
        apply_steps(plain_shape(), spec_plan(d)) == (Shape {
            keys: query_keys(d),
            limit: Some(eff_limit(d)),
            offset: Some(eff_offset(d)),
        }),
{
    let ft = opt_step(d.title_pat, |p: Seq<char>| StepView::TitlePrefix(p));
    let fb = opt_step(d.body_pat, |p: Seq<char>| StepView::BodyPrefix(p));
    let fc = opt_step(d.created_at, |c: TimeCondition| StepView::CreatedAt(c));
    let fm = opt_step(d.modified_at, |c: TimeCondition| StepView::ModifiedAt(c));
    let ko = match d.orderby_list {
        Some(l) => l.map_values(|o: Orderby| StepView::OrderBy(o)),
        None => Seq::empty(),
    };
    let fl = seq![StepView::Limit(eff_limit(d))];
    let fo = seq![StepView::Offset(eff_offset(d))];
    let p1 = ft + fb;
    let p2 = p1 + fc;
    let p3 = p2 + fm;
    let p4 = p3 + ko;
    let p5 = p4 + fl;
    assert(spec_plan(d) == p5 + fo);
    let e = plain_shape();
    lemma_apply_concat(e, ft, fb);
    lemma_apply_concat(e, p1, fc);
    lemma_apply_concat(e, p2, fm);
    lemma_apply_concat(e, p3, ko);
    lemma_apply_concat(e, p4, fl);
    lemma_apply_concat(e, p5, fo);
    let e = plain_shape();
    assert(apply_steps(e, ft) == e) by {
        if d.title_pat is Some {
            lemma_apply_one(e, ft[0]);
            assert(ft =~= seq![ft[0]]);
        }
    }
    assert(apply_steps(e, fb) == e) by {
        if d.body_pat is Some {
            lemma_apply_one(e, fb[0]);
            assert(fb =~= seq![fb[0]]);
        }
    }
    assert(apply_steps(e, fc) == e) by {
        if d.created_at is Some {
            lemma_apply_one(e, fc[0]);
            assert(fc =~= seq![fc[0]]);
        }
    }
    assert(apply_steps(e, fm) == e) by {
        if d.modified_at is Some {
            lemma_apply_one(e, fm[0]);
            assert(fm =~= seq![fm[0]]);
        }
    }
    assert(apply_steps(e, p3) == e);
    let s4 = Shape { keys: query_keys(d), ..e };
    assert(apply_steps(e, ko) == s4) by {
        match d.orderby_list {
            Some(l) => {
                lemma_apply_orderbys(e, l);
                assert(e.keys + l =~= l);
            },
            None => {},
        }
    }
    let s5 = Shape { limit: Some(eff_limit(d)), ..s4 };
    assert(apply_steps(s4, fl) == s5) by {
        lemma_apply_one(s4, fl[0]);
    }
    assert(apply_steps(s5, fo) == Shape { offset: Some(eff_offset(d)), ..s5 }) by {
        lemma_apply_one(s5, fo[0]);
    }
}

/// Whether one step lets a row through.
pub fn step_keeps_row(step: &QueryStep, row: &Paste) -> (r: bool)
    ensures
        r == step_keeps(step@, row@),
{
    match step {
        QueryStep::TitlePrefix(p) => prefix_holds(p.as_str(), row.title.as_str()),
        QueryStep::BodyPrefix(p) => prefix_holds(p.as_str(), row.body.as_str()),
        QueryStep::CreatedAt(c) => time_holds(c, &row.created_at),
        QueryStep::ModifiedAt(c) => time_holds(c, &row.modified_at),
        _ => true,
    }
}

/// Whether every step of a plan lets a row through.
pub fn keeps_row(steps: &Vec<QueryStep>, row: &Paste) -> (r: bool)
    ensures
        r == keeps_all(step_views(steps@), row@),
{
    let ghost sv = step_views(steps@);
    let mut i: usize = 0;
    while i < steps.len()
        invariant
            i <= steps@.len(),
            sv == step_views(steps@),
            sv.len() == steps@.len(),
            forall|k: int| 0 <= k < i ==> step_keeps(#[trigger] sv[k], row@),
        decreases steps.len() - i,
    {
        assert(sv[i as int] == steps@[i as int]@);
        if !step_keeps_row(&steps[i], row) {
            return false;
        }
        i += 1;
    }
    true
}

/// The sort keys, limit and offset a plan asks for.
pub fn plan_shape(steps: &Vec<QueryStep>) -> (r: (Vec<Orderby>, Option<i64>, Option<i64>))
    ensures
        apply_steps(plain_shape(), step_views(steps@)) == (Shape {
            keys: r.0@,
            limit: r.1,
            offset: r.2,
        }),
{
    let ghost sv = step_views(steps@);
    let mut keys: Vec<Orderby> = Vec::new();
    let mut limit: Option<i64> = None;
    let mut offset: Option<i64> = None;
    let mut i: usize = 0;
    assert(sv.subrange(0, 0) =~= Seq::<StepView>::empty());
    while i < steps.len()
        invariant
            i <= steps@.len(),
            sv == step_views(steps@),
            sv.len() == steps@.len(),
            apply_steps(plain_shape(), sv.subrange(0, i as int)) == (Shape {
                keys: keys@,
                limit,
                offset,
            }),
        decreases steps.len() - i,
    {
        let ghost pre = sv.subrange(0, i as int + 1);
        assert(pre.drop_last() =~= sv.subrange(0, i as int));
        assert(pre.last() == steps@[i as int]@);
        match &steps[i] {
            QueryStep::OrderBy(o) => keys.push(*o),
            QueryStep::Limit(n) => limit = Some(*n),
            QueryStep::Offset(n) => offset = Some(*n),
            _ => {},
        }
        i += 1;
    }
    assert(sv.subrange(0, sv.len() as int) =~= sv);
    (keys, limit, offset)
}

} // verus!
