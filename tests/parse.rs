use pastebin::cond::{parse_orderby, parse_time_cond, CmpOp, Item, Order, Orderby};
use pastebin::error::{
    Error, ERR_MSG_BAD_ID, ERR_MSG_PAYLOAD_PARSE_ORDERBY_FAIL, ERR_MSG_PAYLOAD_PARSE_TIME_COND_FAIL,
};
use pastebin::paste::Timestamp;
use pastebin::request::parse_id;

fn time_cond_fails(s: &str) {
    match parse_time_cond(s) {
        Ok(c) => panic!("{} parsed as {:?}", s, c),
        Err(Error::PayloadError(m)) => assert_eq!(m, ERR_MSG_PAYLOAD_PARSE_TIME_COND_FAIL),
        Err(e) => panic!("unexpected error {:?}", e),
    }
}

fn orderby_fails(s: &str) {
    match parse_orderby(s) {
        Ok(v) => panic!("{} parsed as {:?}", s, v),
        Err(Error::PayloadError(m)) => assert_eq!(m, ERR_MSG_PAYLOAD_PARSE_ORDERBY_FAIL),
        Err(e) => panic!("unexpected error {:?}", e),
    }
}

#[test]
fn time_cond_each_operator_round_trips() {
    let ops = [
        ("GT", CmpOp::GT),
        ("EQ", CmpOp::EQ),
        ("LT", CmpOp::LT),
        ("GE", CmpOp::GE),
        ("LE", CmpOp::LE),
    ];
    for (text, op) in ops.iter() {
        for secs in [0u64, 1, 100000, 1_600_000_000, u64::MAX].iter() {
            let c = parse_time_cond(&format!("{},{}", text, secs)).unwrap();
            assert_eq!(c.op, *op);
            assert_eq!(c.time, Timestamp { secs: *secs, nanos: 0 });
        }
    }
}

#[test]
fn time_cond_exact_value() {
    let c = parse_time_cond("GT,100000").unwrap();
    assert_eq!(c.op, CmpOp::GT);
    assert_eq!(c.time.secs, 100000);
    assert_eq!(c.time.nanos, 0);
}

#[test]
fn time_cond_accepts_plus_sign() {
    let c = parse_time_cond("LE,+42").unwrap();
    assert_eq!(c.op, CmpOp::LE);
    assert_eq!(c.time.secs, 42);
}

#[test]
fn time_cond_bad_field_count() {
    time_cond_fails("");
    time_cond_fails("GT");
    time_cond_fails("GT,1,2");
    time_cond_fails(",");
    time_cond_fails("GT,");
}

#[test]
fn time_cond_bad_operator() {
    time_cond_fails("DD,100000");
    time_cond_fails("gt,100000");
    time_cond_fails("GTE,1");
    time_cond_fails(",100000");
}

#[test]
fn time_cond_bad_number() {
    time_cond_fails("GT,-1");
    time_cond_fails("GT,abc");
    time_cond_fails("GT,1.5");
    time_cond_fails("GT, 1");
    time_cond_fails("GT,+");
    time_cond_fails("GT,18446744073709551616");
}

#[test]
fn orderby_title_asc_body_decs() {
    let v = parse_orderby("Title:asc,Body:decs").unwrap();
    assert_eq!(
        v,
        vec![
            Orderby { item: Item::Title, order: Order::Ascend },
            Orderby { item: Item::Body, order: Order::Decrease },
        ]
    );
}

#[test]
fn orderby_all_columns() {
    let v = parse_orderby("ModifiedAt:decs,CreatedAt:asc,Body:asc,Title:decs").unwrap();
    assert_eq!(
        v,
        vec![
            Orderby { item: Item::ModifiedAt, order: Order::Decrease },
            Orderby { item: Item::CreatedAt, order: Order::Ascend },
            Orderby { item: Item::Body, order: Order::Ascend },
            Orderby { item: Item::Title, order: Order::Decrease },
        ]
    );
}

#[test]
fn orderby_rejects_bad_column_and_desc() {
    orderby_fails("BAD:asc");
    orderby_fails("Title:desc");
}

#[test]
fn orderby_rejects_malformed() {
    orderby_fails("");
    orderby_fails("Title");
    orderby_fails("Title:asc:asc");
    orderby_fails("Title:asc,");
    orderby_fails("title:asc");
    orderby_fails("Title:asc,Body:DECS");
}

#[test]
fn path_ids() {
    assert_eq!(parse_id("42").unwrap(), 42);
    assert_eq!(parse_id("-7").unwrap(), -7);
    assert_eq!(parse_id("+7").unwrap(), 7);
    assert_eq!(parse_id("9223372036854775807").unwrap(), i64::MAX);
    assert_eq!(parse_id("-9223372036854775808").unwrap(), i64::MIN);
    for bad in ["dddd", "", "-", "9223372036854775808", "1 ", "0x10"].iter() {
        match parse_id(bad) {
            Err(Error::BadID) => {}
            other => panic!("{:?} gave {:?}", bad, other),
        }
    }
    let res = Error::BadID.error_response();
    assert_eq!(res.code, 400);
    assert_eq!(res.msg, ERR_MSG_BAD_ID);
}
