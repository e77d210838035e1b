use pastebin::cond::{CmpOp, Item, Order, Orderby, TimeCondition};
use pastebin::config::{PostgresConfig, ServerConfig};
use pastebin::error::{Error, StorageError};
use pastebin::paste::Timestamp;
use pastebin::query::{
    build_query, compare_text, like_prefix, starts_with_text, GetPasteListMsg, QueryStep,
};

#[test]
fn error_responses() {
    let r = Error::payload("parse orderby list fail").error_response();
    assert_eq!((r.code, r.msg.as_str()), (400, "parse orderby list fail"));
    let r = Error::from_storage(StorageError::NotFound).error_response();
    assert_eq!((r.code, r.msg.as_str()), (404, "data not found"));
    let r = Error::from_storage(StorageError::Other).error_response();
    assert_eq!((r.code, r.msg.as_str()), (500, "database operation fail"));
    let r = Error::bad_request("nope").error_response();
    assert_eq!((r.code, r.msg.as_str()), (400, "nope"));
    assert_eq!(r.status(), 400);
    let r = Error::Custom(42, "odd".to_string()).error_response();
    assert_eq!(r.code, 42);
    assert_eq!(r.status(), 500);
    assert_eq!(Error::Custom(700, "x".to_string()).error_response().status(), 500);
    assert_eq!(Error::Custom(600, "x".to_string()).error_response().status(), 500);
    assert_eq!(Error::Custom(599, "x".to_string()).error_response().status(), 599);
    assert_eq!(Error::Custom(100, "x".to_string()).error_response().status(), 100);
}

#[test]
fn query_steps_keep_fixed_order() {
    let msg = GetPasteListMsg {
        title_pat: Some("t".to_string()),
        body_pat: None,
        created_at: Some(TimeCondition { op: CmpOp::GE, time: Timestamp { secs: 3, nanos: 0 } }),
        modified_at: Some(TimeCondition { op: CmpOp::LT, time: Timestamp { secs: 9, nanos: 0 } }),
        orderby_list: Some(vec![
            Orderby { item: Item::Body, order: Order::Decrease },
            Orderby { item: Item::Title, order: Order::Ascend },
        ]),
        limit: Some(5),
        offset: None,
    };
    let steps = build_query(&msg);
    assert_eq!(steps.len(), 7);
    assert!(matches!(&steps[0], QueryStep::TitlePrefix(p) if p == "t"));
    assert!(matches!(steps[1], QueryStep::CreatedAt(c) if c.op == CmpOp::GE && c.time.secs == 3));
    assert!(matches!(steps[2], QueryStep::ModifiedAt(c) if c.op == CmpOp::LT));
    assert!(matches!(steps[3], QueryStep::OrderBy(o) if o.item == Item::Body && o.order == Order::Decrease));
    assert!(matches!(steps[4], QueryStep::OrderBy(o) if o.item == Item::Title));
    assert!(matches!(steps[5], QueryStep::Limit(5)));
    assert!(matches!(steps[6], QueryStep::Offset(0)));

    let mut msg = GetPasteListMsg::default();
    msg.limit = None;
    msg.offset = None;
    let steps = build_query(&msg);
    assert_eq!(steps.len(), 2);
    assert!(matches!(steps[0], QueryStep::Limit(20)));
    assert!(matches!(steps[1], QueryStep::Offset(0)));

    let steps = build_query(&GetPasteListMsg::default());
    assert_eq!(steps.len(), 2);
    assert!(matches!(steps[0], QueryStep::Limit(20)));
    assert!(matches!(steps[1], QueryStep::Offset(0)));
}

#[test]
fn text_helpers() {
    assert_eq!(compare_text("abc", "abd"), -1);
    assert_eq!(compare_text("abc", "ab"), 1);
    assert_eq!(compare_text("", ""), 0);
    assert_eq!(compare_text("test title 1", "test title 1"), 0);
    assert!(starts_with_text("test", "test title"));
    assert!(!starts_with_text("title", "test title"));
    assert!(starts_with_text("", "x"));
}

#[test]
fn timestamps_compare() {
    let a = Timestamp::from_secs(5);
    assert_eq!(a, Timestamp { secs: 5, nanos: 0 });
    assert_eq!(a.compare(&Timestamp { secs: 5, nanos: 1 }), -1);
    assert_eq!(a.compare(&Timestamp { secs: 4, nanos: 999 }), 1);
    assert_eq!(a.compare(&a), 0);
}

#[test]
fn config_urls() {
    let p = PostgresConfig {
        host: "localhost".to_string(),
        username: "user".to_string(),
        password: "pw".to_string(),
        database: "pastes".to_string(),
    };
    assert_eq!(p.database_url(), "postgres://user:pw@localhost/pastes");
    let s = ServerConfig { ip: "127.0.0.1".to_string(), port: "8080".to_string() };
    assert_eq!(s.server_url(), "127.0.0.1:8080");
}

#[test]
fn like_prefix_escapes_wildcards() {
    assert_eq!(like_prefix("test title"), "test title%");
    assert_eq!(like_prefix("a%b_c\\"), "a\\%b\\_c\\\\%");
    assert_eq!(like_prefix(""), "%");
}
