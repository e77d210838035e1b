//! The two condition mini-languages of list queries: a time comparison
//! `<OP>,<seconds>` and an order list `<COLUMN>:<DIRECTION>,...`.

use vstd::prelude::*;

use crate::error::{
    is_payload_error, Error, ERR_MSG_PAYLOAD_PARSE_ORDERBY_FAIL,
    ERR_MSG_PAYLOAD_PARSE_TIME_COND_FAIL,
};
use crate::num::{decimal_text, is_digit, lemma_decimal_text, parse_u64, spec_parse_u64};
use crate::paste::Timestamp;
use crate::text::{chars_of, free_of, lemma_split_nonempty, lemma_split_two, same_text, split_chars, split_on, views_of};

verus! {

/// A comparison against a time column.
#[derive(Debug, Clone, Copy, PartialEq, Eq, Structural)]
pub enum CmpOp {
    GT,
    EQ,
    LT,
    GE,
    LE,
}

/// A column a list can be ordered by.
#[derive(Debug, Clone, Copy, PartialEq, Eq, Structural)]
pub enum Item {
    Title,
    Body,
    CreatedAt,
    ModifiedAt,
}

/// A sort direction.
#[derive(Debug, Clone, Copy, PartialEq, Eq, Structural)]
pub enum Order {
    Ascend,
    Decrease,
}

/// One sort key of an order list.
#[derive(Debug, Clone, Copy, PartialEq, Eq, Structural)]
pub struct Orderby {
    pub item: Item,
    pub order: Order,
}

/// A comparison of a time column against a fixed moment.
#[derive(Debug, Clone, Copy, PartialEq, Eq, Structural)]
pub struct TimeCondition {
    pub op: CmpOp,
    pub time: Timestamp,
}

pub open spec fn cmp_op_text(op: CmpOp) -> Seq<char> {
    match op {
        CmpOp::GT => "GT"@,
        CmpOp::EQ => "EQ"@,
        CmpOp::LT => "LT"@,
        CmpOp::GE => "GE"@,
        CmpOp::LE => "LE"@,
    }
}

/// The operator written `t`, if any; the match is exact and case-sensitive.
pub open spec fn spec_cmp_op(t: Seq<char>) -> Option<CmpOp> {
    if t == cmp_op_text(CmpOp::GT) {
        Some(CmpOp::GT)
    } else if t == cmp_op_text(CmpOp::EQ) {
        Some(CmpOp::EQ)
    } else if t == cmp_op_text(CmpOp::LT) {
        Some(CmpOp::LT)
    } else if t == cmp_op_text(CmpOp::GE) {
        Some(CmpOp::GE)
    } else if t == cmp_op_text(CmpOp::LE) {
        Some(CmpOp::LE)
    } else {
        None
    }
}

/// The condition that `s` denotes: exactly two comma-separated fields, an
/// operator and a `u64` count of seconds since the epoch.
pub open spec fn spec_parse_time_cond(s: Seq<char>) -> Option<TimeCondition> {
    let f = split_on(s, ',');
    if f.len() == 2 {
        match (spec_cmp_op(f[0]), spec_parse_u64(f[1])) {
            (Some(op), Some(secs)) => Some(TimeCondition { op, time: Timestamp { secs, nanos: 0 } }),
            _ => None,
        }
    } else {
        None
    }
}

pub open spec fn item_text(item: Item) -> Seq<char> {
    match item {
        Item::Title => "Title"@,
        Item::Body => "Body"@,
        Item::CreatedAt => "CreatedAt"@,
        Item::ModifiedAt => "ModifiedAt"@,
    }
}

pub open spec fn spec_item(t: Seq<char>) -> Option<Item> {
    if t == item_text(Item::Title) {
        Some(Item::Title)
    } else if t == item_text(Item::Body) {
        Some(Item::Body)
    } else if t == item_text(Item::CreatedAt) {
        Some(Item::CreatedAt)
    } else if t == item_text(Item::ModifiedAt) {
        Some(Item::ModifiedAt)
    } else {
        None
    }
}

/// Direction words: `asc`, and `decs` (sic) for descending.
pub open spec fn order_text(order: Order) -> Seq<char> {
    match order {
        Order::Ascend => "asc"@,
        Order::Decrease => "decs"@,
    }
}

pub open spec fn spec_order(t: Seq<char>) -> Option<Order> {
    if t == order_text(Order::Ascend) {
        Some(Order::Ascend)
    } else if t == order_text(Order::Decrease) {
        Some(Order::Decrease)
    } else {
        None
    }
}

/// The sort key that one component `<COLUMN>:<DIRECTION>` denotes.
pub open spec fn spec_orderby_comp(c: Seq<char>) -> Option<Orderby> {
    let f = split_on(c, ':');
    if f.len() == 2 {
        match (spec_item(f[0]), spec_order(f[1])) {
            (Some(item), Some(order)) => Some(Orderby { item, order }),
            _ => None,
        }
    } else {
        None
    }
}

/// The order list that `s` denotes: every comma-separated component must be
/// a valid sort key; the keys keep the order of the components.
pub open spec fn spec_parse_orderby(s: Seq<char>) -> Option<Seq<Orderby>> {
    let comps = split_on(s, ',');
    if forall|i: int| 0 <= i < comps.len() ==> (#[trigger] spec_orderby_comp(comps[i])) is Some {
        Some(comps.map_values(|c: Seq<char>| spec_orderby_comp(c)->0))
    } else {
        None
    }
}

/// One malformed component rejects the whole order list.
proof fn lemma_orderby_rejects(s: Seq<char>, i: int)
    requires
        0 <= i < split_on(s, ',').len(),
        spec_orderby_comp(split_on(s, ',')[i]) is None,
    ensures
        spec_parse_orderby(s) is None,
{
}

/// The text `<OP>,<N>` for an operator and a count of seconds, N written in
/// decimal without sign or leading zeros.
pub open spec fn time_cond_text(op: CmpOp, secs: u64) -> Seq<char> {
    cmp_op_text(op) + seq![','] + decimal_text(secs as nat)
}

/// Every operator with every count of seconds, written `<OP>,<N>`, reads back
/// as that operator and that many seconds after the epoch.
pub proof fn lemma_time_cond_round_trip(op: CmpOp, secs: u64)
    ensures
        spec_parse_time_cond(time_cond_text(op, secs)) == Some(
            TimeCondition { op, time: Timestamp { secs, nanos: 0 } },
        ),
{
    reveal_strlit("GT");
    reveal_strlit("EQ");
    reveal_strlit("LT");
    reveal_strlit("GE");
    reveal_strlit("LE");
    let a = cmp_op_text(op);
    let d = decimal_text(secs as nat);
    lemma_decimal_text(secs as nat);
    assert(free_of(a, ','));
    assert(free_of(d, ',')) by {
        assert forall|i: int| 0 <= i < d.len() implies #[trigger] d[i] != ',' by {
            assert(is_digit(d[i]));
        }
    }
    lemma_split_two(a, d, ',');
    assert(d[0] != '+') by {
        assert(is_digit(d[0]));
    }
    assert(spec_cmp_op(a) == Some(op)) by {
        assert("GT"@[0] != "EQ"@[0]);
        assert("GT"@[0] != "LT"@[0]);
        assert("GT"@[1] != "GE"@[1]);
        assert("GT"@[0] != "LE"@[0]);
        assert("EQ"@[0] != "LT"@[0]);
        assert("EQ"@[0] != "GE"@[0]);
        assert("EQ"@[0] != "LE"@[0]);
        assert("LT"@[0] != "GE"@[0]);
        assert("LT"@[1] != "LE"@[1]);
        assert("GE"@[0] != "LE"@[0]);
    }
}

/// Input with other than two comma-separated fields, with a first field
/// outside the five operators, or with a second field that is not a `u64`,
/// denotes no condition.
pub proof fn lemma_time_cond_rejects_malformed(s: Seq<char>)
    requires
        ({
            let f = split_on(s, ',');
            f.len() != 2 || spec_cmp_op(f[0]) is None || spec_parse_u64(f[1]) is None
        }),
    ensures
        spec_parse_time_cond(s) is None,
{
}

fn parse_cmp_op(t: &Vec<char>) -> (r: Option<CmpOp>)
    ensures
        r == spec_cmp_op(t@),
{
    if same_text(t, "GT") {
        Some(CmpOp::GT)
    } else if same_text(t, "EQ") {
        Some(CmpOp::EQ)
    } else if same_text(t, "LT") {
        Some(CmpOp::LT)
    } else if same_text(t, "GE") {
        Some(CmpOp::GE)
    } else if same_text(t, "LE") {
        Some(CmpOp::LE)
    } else {
        None
    }
}

fn parse_item(t: &Vec<char>) -> (r: Option<Item>)
    ensures
        r == spec_item(t@),
{
    if same_text(t, "Title") {
        Some(Item::Title)
    } else if same_text(t, "Body") {
        Some(Item::Body)
    } else if same_text(t, "CreatedAt") {
        Some(Item::CreatedAt)
    } else if same_text(t, "ModifiedAt") {
        Some(Item::ModifiedAt)
    } else {
        None
    }
}

fn parse_order(t: &Vec<char>) -> (r: Option<Order>)
    ensures
        r == spec_order(t@),
{
    if same_text(t, "asc") {
        Some(Order::Ascend)
    } else if same_text(t, "decs") {
        Some(Order::Decrease)
    } else {
        None
    }
}

/// Reads a time condition `<OP>,<seconds>`, where OP is one of GT, EQ, LT,
/// GE, LE. Any malformed input gives the one payload error for time
/// conditions.
pub fn parse_time_cond(cond_str: &str) -> (r: Result<TimeCondition, Error>)
    ensures
        match r {
            Ok(c) => spec_parse_time_cond(cond_str@) == Some(c),
            Err(e) => spec_parse_time_cond(cond_str@) is None && is_payload_error(
                e,
                ERR_MSG_PAYLOAD_PARSE_TIME_COND_FAIL@,
            ),
        },
{
    let chars = chars_of(cond_str);
    let op_secs = split_chars(&chars, ',');
    assert(views_of(op_secs@).len() == op_secs@.len());
    if op_secs.len() != 2 {
        return Err(Error::payload(ERR_MSG_PAYLOAD_PARSE_TIME_COND_FAIL));
    }
    assert(views_of(op_secs@)[0] == op_secs@[0]@);
    assert(views_of(op_secs@)[1] == op_secs@[1]@);
    let op = parse_cmp_op(&op_secs[0]);
    let secs = parse_u64(&op_secs[1]);
    match (op, secs) {
        (Some(op), Some(secs)) => Ok(TimeCondition { op, time: Timestamp::from_secs(secs) }),
        _ => Err(Error::payload(ERR_MSG_PAYLOAD_PARSE_TIME_COND_FAIL)),
    }
}

/// Reads an order list `<COLUMN>:<DIRECTION>,...`, where COLUMN is one of
/// Title, Body, CreatedAt, ModifiedAt and DIRECTION one of asc, decs. One
/// malformed component fails the whole list with the one payload error for
/// order lists.
pub fn parse_orderby(orderby_str: &str) -> (r: Result<Vec<Orderby>, Error>)
    ensures
        match r {
            Ok(v) => spec_parse_orderby(orderby_str@) == Some(v@),
            Err(e) => spec_parse_orderby(orderby_str@) is None && is_payload_error(
                e,
                ERR_MSG_PAYLOAD_PARSE_ORDERBY_FAIL@,
            ),
        },
{
    let chars = chars_of(orderby_str);
    let comps = split_chars(&chars, ',');
    let ghost cs = split_on(orderby_str@, ',');
    assert(views_of(comps@) == cs);
    let mut orderby_list: Vec<Orderby> = Vec::new();
    let mut i: usize = 0;
    while i < comps.len()
        invariant
            i <= comps@.len(),
            cs == split_on(orderby_str@, ','),
            cs.len() == comps@.len(),
            forall|k: int| 0 <= k < comps@.len() ==> #[trigger] cs[k] == comps@[k]@,
            orderby_list@.len() == i,
            forall|k: int|
                0 <= k < i ==> spec_orderby_comp(#[trigger] cs[k]) == Some(orderby_list@[k]),
        decreases comps.len() - i,
    {
        let comp = &comps[i];
        let item_order = split_chars(comp, ':');
        assert(views_of(item_order@).len() == item_order@.len());
        if item_order.len() != 2 {
            proof {
                lemma_orderby_rejects(orderby_str@, i as int);
            }
            return Err(Error::payload(ERR_MSG_PAYLOAD_PARSE_ORDERBY_FAIL));
        }
        assert(views_of(item_order@)[0] == item_order@[0]@);
        assert(views_of(item_order@)[1] == item_order@[1]@);
        let item = parse_item(&item_order[0]);
        let order = parse_order(&item_order[1]);
        match (item, order) {
            (Some(item), Some(order)) => {
                orderby_list.push(Orderby { item, order });
            },
            _ => {
                proof {
                lemma_orderby_rejects(orderby_str@, i as int);
            }
                return Err(Error::payload(ERR_MSG_PAYLOAD_PARSE_ORDERBY_FAIL));
            },
        }
        i += 1;
    }
    assert(orderby_list@ =~= cs.map_values(|c: Seq<char>| spec_orderby_comp(c)->0));
    Ok(orderby_list)
}

} // verus!
