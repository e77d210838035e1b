use pastebin::cond::{CmpOp, Item, Order, Orderby, TimeCondition};
use pastebin::error::{
    Error, ResponseError, StorageError, ERR_MSG_BAD_ID, ERR_MSG_DATA_NOT_FOUND,
    ERR_MSG_PAYLOAD_PARSE_ORDERBY_FAIL, ERR_MSG_PAYLOAD_PARSE_TIME_COND_FAIL,
};
use pastebin::paste::{Paste, Timestamp};
use pastebin::query::{GetPasteListMsg, QueryStep};
use pastebin::request::{parse_id, GetPasteListConds, NewPaste, UpdatePaste, DELETE_OK};
use pastebin::service::{
    handle_create, handle_delete, handle_get_by_id, handle_list, handle_update, DelPasteByIdMsg,
    GetPasteByIdMsg,
};
use pastebin::store::MemStore;

const SEED_TIME: u64 = 1_600_000_000;

fn seeded() -> (MemStore, Vec<Paste>) {
    let mut store = MemStore::new();
    let mut data = Vec::new();
    for n in (1..10).rev() {
        let body = NewPaste {
            title: "test title ".to_string() + &n.to_string(),
            body: "test body ".to_string() + &n.to_string(),
        };
        let msg = body.into_msg(Timestamp { secs: SEED_TIME, nanos: 0 });
        data.push(handle_create(&mut store, msg).unwrap());
    }
    (store, data)
}

fn conds() -> GetPasteListConds {
    GetPasteListConds {
        title_pat: None,
        body_pat: None,
        cmp_created_at: None,
        cmp_modified_at: None,
        orderby_list: None,
        limit: None,
        offset: None,
    }
}

fn get_by_path(store: &MemStore, path_id: &str) -> Result<Paste, ResponseError> {
    let id = parse_id(path_id).map_err(|e| e.error_response())?;
    handle_get_by_id(store, GetPasteByIdMsg { id }).map_err(|e| e.error_response())
}

fn del_by_path(store: &mut MemStore, path_id: &str) -> Result<&'static str, ResponseError> {
    let id = parse_id(path_id).map_err(|e| e.error_response())?;
    handle_delete(store, DelPasteByIdMsg { id })
        .map(|_| DELETE_OK)
        .map_err(|e| e.error_response())
}

fn list(store: &MemStore, c: GetPasteListConds) -> Result<Vec<Paste>, ResponseError> {
    let msg = c.into_msg().map_err(|e| e.error_response())?;
    handle_list(store, msg).map_err(|e| e.error_response())
}

fn assert_err(res: ResponseError, code: u16, msg: &str) {
    assert_eq!(res.code, code);
    assert_eq!(res.msg, msg);
}

fn assert_pastes(pastes: &[Paste]) {
    for (idx, paste) in pastes.iter().enumerate() {
        assert!(paste.title.contains("test"));
        assert!(paste.body.contains("test body"));
        assert_eq!(paste.title, "test title ".to_string() + &(idx + 1).to_string());
        assert_eq!(paste.body, "test body ".to_string() + &(idx + 1).to_string());
    }
}

#[test]
fn test_get_paste_by_id() {
    let (store, data) = seeded();
    let paste = data.first().unwrap();
    let fetched = get_by_path(&store, &format!("{}", paste.id)).unwrap();
    assert_eq!(fetched.id, paste.id);
    assert_eq!(fetched.title, paste.title);
    assert_eq!(fetched.body, paste.body);
}

#[test]
fn test_get_paste_by_bad_id() {
    let (store, _) = seeded();
    let res = get_by_path(&store, &format!("{}", "dddd")).unwrap_err();
    assert_err(res, 400, ERR_MSG_BAD_ID);
}

#[test]
fn test_get_paste_by_none_exist_id() {
    let (store, _) = seeded();
    let res = get_by_path(&store, &format!("{}", 99999999)).unwrap_err();
    assert_err(res, 404, ERR_MSG_DATA_NOT_FOUND);
}

#[test]
fn test_get_paste_list() {
    let (store, _) = seeded();

    let pastes = list(&store, conds()).unwrap();
    assert_eq!(pastes.len(), 9);
    let mut sorted = pastes;
    sorted.sort_by(|a, b| a.title.cmp(&b.title));
    assert_pastes(&sorted);

    let mut c = conds();
    c.title_pat = Some("test title".to_string());
    c.body_pat = Some("test body 1".to_string());
    let mut pastes = list(&store, c).unwrap();
    assert_eq!(pastes.len(), 1);
    assert_eq!(pastes.pop().unwrap().title, "test title 1");

    let mut c = conds();
    c.title_pat = Some("test".to_string());
    c.body_pat = Some("test body".to_string());
    c.limit = Some(5);
    c.cmp_created_at = Some("GT,100000".to_string());
    c.orderby_list = Some("Title:asc,Body:asc".to_string());
    let pastes = list(&store, c).unwrap();
    assert_eq!(pastes.len(), 5);
    assert_pastes(&pastes);
}

#[test]
fn test_get_paste_list_with_bad_cmp_created_at() {
    let (store, _) = seeded();
    let mut c = conds();
    c.title_pat = Some("test".to_string());
    c.body_pat = Some("test body".to_string());
    c.limit = Some(5);
    c.cmp_created_at = Some("DD,100000".to_string());
    assert_err(list(&store, c).unwrap_err(), 400, ERR_MSG_PAYLOAD_PARSE_TIME_COND_FAIL);
}

#[test]
fn test_get_paste_list_with_bad_cmp_modified_at() {
    let (store, _) = seeded();
    let mut c = conds();
    c.title_pat = Some("test".to_string());
    c.body_pat = Some("test body".to_string());
    c.limit = Some(5);
    c.cmp_modified_at = Some("DD,100000".to_string());
    assert_err(list(&store, c).unwrap_err(), 400, ERR_MSG_PAYLOAD_PARSE_TIME_COND_FAIL);
}

#[test]
fn test_get_paste_list_with_bad_orderby_list() {
    let (store, _) = seeded();
    let mut c = conds();
    c.title_pat = Some("test".to_string());
    c.body_pat = Some("test body".to_string());
    c.limit = Some(5);
    c.orderby_list = Some("BAD:asc".to_string());
    assert_err(list(&store, c).unwrap_err(), 400, ERR_MSG_PAYLOAD_PARSE_ORDERBY_FAIL);
}

#[test]
fn test_creat_paste() {
    let (mut store, _) = seeded();
    let body = NewPaste { title: "test new paste".to_string(), body: "my new paste".to_string() };
    let created =
        handle_create(&mut store, body.into_msg(Timestamp { secs: SEED_TIME + 5, nanos: 7 })).unwrap();
    assert!(created.id > 0);
    assert_eq!(created.title, "test new paste");
    assert_eq!(created.body, "my new paste");
}

#[test]
fn test_update_paste() {
    let (mut store, data) = seeded();
    let paste = data.first().unwrap();
    let body = UpdatePaste {
        id: paste.id,
        title: "test updated paste".to_string(),
        body: "test updated ddd body".to_string(),
    };
    let updated =
        handle_update(&mut store, body.into_msg(Timestamp { secs: SEED_TIME + 60, nanos: 0 })).unwrap();
    assert!(updated.id == paste.id);
    assert_eq!(updated.title, "test updated paste");
    assert_eq!(updated.body, "test updated ddd body");
}

#[test]
fn test_del_paste_by_id() {
    let (mut store, data) = seeded();
    let paste = data.first().unwrap();
    let res = del_by_path(&mut store, &format!("{}", paste.id)).unwrap();
    assert_eq!(res, "ok");
}

#[test]
fn test_del_paste_by_bad_id() {
    let (mut store, _) = seeded();
    let res = del_by_path(&mut store, &format!("{}", "dddd")).unwrap_err();
    assert_err(res, 400, ERR_MSG_BAD_ID);
}

#[test]
fn list_seeded_titles_limit_five_in_title_order() {
    let (store, _) = seeded();
    let now = SEED_TIME + 1;
    let mut c = conds();
    c.title_pat = Some("test title".to_string());
    c.cmp_created_at = Some(format!("LE,{}", now + 10));
    c.orderby_list = Some("Title:asc".to_string());
    c.limit = Some(5);
    let pastes = list(&store, c).unwrap();
    let titles: Vec<&str> = pastes.iter().map(|p| p.title.as_str()).collect();
    assert_eq!(titles, vec!["test title 1", "test title 2", "test title 3", "test title 4", "test title 5"]);
}

#[test]
fn list_orders_title_ties_by_body() {
    let mut store = MemStore::new();
    for (t, b) in [("b", "2"), ("a", "9"), ("b", "1"), ("a", "3")].iter() {
        let body = NewPaste { title: t.to_string(), body: b.to_string() };
        handle_create(&mut store, body.into_msg(Timestamp { secs: 10, nanos: 0 })).unwrap();
    }
    let mut c = conds();
    c.orderby_list = Some("Title:asc,Body:asc".to_string());
    let got: Vec<(String, String)> =
        list(&store, c).unwrap().into_iter().map(|p| (p.title, p.body)).collect();
    let want: Vec<(String, String)> = [("a", "3"), ("a", "9"), ("b", "1"), ("b", "2")]
        .iter()
        .map(|(t, b)| (t.to_string(), b.to_string()))
        .collect();
    assert_eq!(got, want);

    let mut c = conds();
    c.orderby_list = Some("Title:decs,Body:asc".to_string());
    let got: Vec<String> = list(&store, c).unwrap().into_iter().map(|p| p.body).collect();
    assert_eq!(got, vec!["1", "2", "3", "9"]);

    let mut c = conds();
    c.orderby_list = Some("Title:asc".to_string());
    let got: Vec<String> = list(&store, c).unwrap().into_iter().map(|p| p.body).collect();
    assert_eq!(got, vec!["9", "3", "2", "1"]);
}

#[test]
fn list_filters_combine() {
    let (store, _) = seeded();
    let mut c = conds();
    c.title_pat = Some("TEST TITLE".to_string());
    c.body_pat = Some("test body 9".to_string());
    assert_eq!(list(&store, c).unwrap().len(), 1);

    let mut c = conds();
    c.cmp_created_at = Some(format!("GT,{}", SEED_TIME));
    assert_eq!(list(&store, c).unwrap().len(), 0);

    let mut c = conds();
    c.cmp_modified_at = Some(format!("EQ,{}", SEED_TIME));
    assert_eq!(list(&store, c).unwrap().len(), 9);

    let mut c = conds();
    c.title_pat = Some("nothing".to_string());
    assert!(list(&store, c).unwrap().is_empty());
}

#[test]
fn list_offset_and_limit_window() {
    let (store, _) = seeded();
    let mut c = conds();
    c.offset = Some(7);
    c.orderby_list = Some("Title:asc".to_string());
    let titles: Vec<String> = list(&store, c).unwrap().into_iter().map(|p| p.title).collect();
    assert_eq!(titles, vec!["test title 8", "test title 9"]);

    let mut c = conds();
    c.offset = Some(20);
    assert!(list(&store, c).unwrap().is_empty());

    let mut c = conds();
    c.limit = Some(0);
    assert!(list(&store, c).unwrap().is_empty());

    let mut c = conds();
    c.limit = Some(-1);
    let res = list(&store, c).unwrap_err();
    assert_eq!(res.code, 500);
}

#[test]
fn list_default_limit_is_twenty() {
    let mut store = MemStore::new();
    for n in 0..25 {
        let body = NewPaste { title: format!("t{}", n), body: String::new() };
        handle_create(&mut store, body.into_msg(Timestamp { secs: 1, nanos: 0 })).unwrap();
    }
    assert_eq!(list(&store, conds()).unwrap().len(), 20);
    let msg = GetPasteListMsg::default();
    assert_eq!(msg.limit, Some(20));
    assert_eq!(msg.offset, Some(0));
    assert_eq!(handle_list(&store, msg).unwrap().len(), 20);
    let mut msg = GetPasteListMsg::default();
    msg.limit = None;
    msg.offset = None;
    assert_eq!(handle_list(&store, msg).unwrap().len(), 20);
}

#[test]
fn delete_missing_is_zero_and_get_missing_is_not_found() {
    let (mut store, _) = seeded();
    assert_eq!(handle_delete(&mut store, DelPasteByIdMsg { id: 12345 }).unwrap(), 0);
    match handle_get_by_id(&store, GetPasteByIdMsg { id: 12345 }) {
        Err(Error::DatabaseError(StorageError::NotFound)) => {}
        other => panic!("unexpected {:?}", other),
    }
    assert_eq!(handle_delete(&mut store, DelPasteByIdMsg { id: 1 }).unwrap(), 1);
    assert_eq!(handle_delete(&mut store, DelPasteByIdMsg { id: 1 }).unwrap(), 0);
    assert_eq!(store.rows().len(), 8);
}

#[test]
fn update_missing_is_not_found() {
    let (mut store, _) = seeded();
    let body = UpdatePaste { id: 77, title: "x".to_string(), body: "y".to_string() };
    match handle_update(&mut store, body.into_msg(Timestamp { secs: 1, nanos: 0 })) {
        Err(Error::DatabaseError(StorageError::NotFound)) => {}
        other => panic!("unexpected {:?}", other),
    }
}

#[test]
fn create_then_update_times() {
    let mut store = MemStore::new();
    let created_at = Timestamp { secs: 100, nanos: 5 };
    let body = NewPaste { title: "a".to_string(), body: "b".to_string() };
    let p = handle_create(&mut store, body.into_msg(created_at)).unwrap();
    assert_eq!(p.created_at, created_at);
    assert_eq!(p.modified_at, p.created_at);

    let later = Timestamp { secs: 100, nanos: 6 };
    let body = UpdatePaste { id: p.id, title: "c".to_string(), body: "d".to_string() };
    let u = handle_update(&mut store, body.into_msg(later)).unwrap();
    assert_eq!(u.created_at, created_at);
    assert_eq!(u.modified_at, later);
    assert_eq!(u.modified_at.compare(&p.modified_at), 1);
    let again = handle_get_by_id(&store, GetPasteByIdMsg { id: p.id }).unwrap();
    assert!(again == u);
}

#[test]
fn ids_are_assigned_in_order() {
    let (_, data) = seeded();
    let ids: Vec<i64> = data.iter().map(|p| p.id).collect();
    assert_eq!(ids, (1..10).collect::<Vec<i64>>());
    assert_eq!(data[0].title, "test title 9");
}

#[test]
fn run_hand_built_plan() {
    let (store, _) = seeded();
    let steps = vec![
        QueryStep::OrderBy(Orderby { item: Item::Title, order: Order::Decrease }),
        QueryStep::Limit(3),
        QueryStep::CreatedAt(TimeCondition { op: CmpOp::GE, time: Timestamp { secs: SEED_TIME, nanos: 0 } }),
        QueryStep::Limit(2),
        QueryStep::Offset(1),
    ];
    let titles: Vec<String> = store.run(&steps).unwrap().into_iter().map(|p| p.title).collect();
    assert_eq!(titles, vec!["test title 8", "test title 7"]);
}
