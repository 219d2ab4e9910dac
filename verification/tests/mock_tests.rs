use clickhouse::encode::encode_rows;
use clickhouse::http::rejection_reason;
use clickhouse::mock::{failure, provide, record, record_ddl, serve, Mock, Recording};
use clickhouse::watch::{
    event_layout, event_row, live_view_ddl, split_event, watch, watch_only_events, watch_sql,
};
use clickhouse::{
    ClientConfig, Column, ColumnKind, DecodeError, Error, Method, Request, Response, Value,
};

fn layout() -> Vec<Column> {
    vec![Column { name: "no".to_string(), kind: ColumnKind::UInt32, nullable: false }]
}

fn some_row(no: u32) -> Vec<Value> {
    vec![Value::UInt(no as u64)]
}

fn insert(rows: &Vec<Vec<Value>>) -> Request {
    Request {
        method: Method::Post,
        url: "http://localhost:8123/?query=INSERT+INTO+%60who+cares%60%28no%29+FORMAT+RowBinary".to_string(),
        headers: vec![],
        body: encode_rows(rows, &layout()).unwrap(),
    }
}

#[test]
fn record_ddl_captures_create_table() {
    let client = ClientConfig::default();
    let mut mock = Mock::new();
    let recording = mock.add(record_ddl());
    assert_eq!(mock.query(recording), None);
    let request = client.query("CREATE TABLE test").do_execute(false).unwrap();
    let response = mock.handle(&request);
    assert_eq!(client.query("CREATE TABLE test").execute(&response), Ok(()));
    assert!(mock.query(recording).unwrap().contains("CREATE TABLE"));
    assert_eq!(mock.query(recording), Some("CREATE TABLE test"));
}

#[test]
fn record_ddl_keeps_the_text_letter_for_letter() {
    let client = ClientConfig::default();
    let mut mock = Mock::new();
    let recording = mock.add(record_ddl());
    let text = "CREATE TABLE `тест` (s String DEFAULT 'it\\'s ☃') -- ?";
    let request = client.query("?").bind(clickhouse::Bind::Str(text.to_string())).do_execute(false).unwrap();
    mock.handle(&request);
    let kept = mock.query(recording).unwrap();
    assert_eq!(clickhouse::sql::parse_string_literal(kept), Some(text.to_string()));
}

#[test]
fn record_ddl_of_bytes_that_are_no_text() {
    let request = Request { method: Method::Post, url: String::new(), headers: vec![], body: vec![0xFF, 0xFE] };
    let (response, recording) = serve(&record_ddl(), &request);
    assert_eq!(response.status, 200);
    assert_eq!(recording, Recording::NotText);
}

#[test]
fn provide_then_fetch_all_returns_the_rows() {
    let client = ClientConfig::default();
    let list = vec![some_row(1), some_row(2)];
    let mut mock = Mock::new();
    mock.add(provide(&layout(), &list).unwrap());
    let query = client.query("SELECT ?fields FROM `who cares`");
    let request = query.clone().fetch(&layout()).unwrap().request().clone();
    let response = mock.handle(&request);
    assert_eq!(response.status, 200);
    assert_eq!(response.reason, "OK");
    assert_eq!(query.fetch_all(&layout(), &response), Ok(list));
}

#[test]
fn provide_refuses_rows_that_do_not_conform() {
    assert_eq!(provide(&layout(), &vec![vec![Value::Bool(true)]]), None);
    assert_eq!(provide(&layout(), &vec![some_row(1), vec![]]), None);
}

#[test]
fn failure_surfaces_with_the_reason_of_its_status() {
    let client = ClientConfig::default();
    let mut mock = Mock::new();
    mock.add(failure(403));
    let query = client.query("SELECT ?fields FROM `who cares`");
    let request = query.clone().fetch(&layout()).unwrap().request().clone();
    let response = mock.handle(&request);
    assert_eq!(response.status, 403);
    assert!(response.body.is_empty());
    let reason = query.fetch_all(&layout(), &response);
    assert_eq!(format!("{reason:?}"), "Err(BadResponse(\"Forbidden\"))");
}

#[test]
fn failure_of_other_statuses() {
    let request = insert(&vec![]);
    let (response, recording) = serve(&failure(500), &request);
    assert_eq!(response.reason, "Internal Server Error");
    assert_eq!(recording, Recording::Answered);
    let (response, _) = serve(&failure(404), &request);
    assert_eq!(response.reason, "Not Found");
    let (response, _) = serve(&failure(599), &request);
    assert_eq!(response.status, 599);
    assert_eq!(response.reason, "<unknown status code>");
    let (response, _) = serve(&failure(7), &request);
    assert_eq!(response.reason, "<unknown status code>");
}

#[test]
fn record_collects_inserted_rows_in_order() {
    let list = vec![some_row(1), some_row(2), some_row(1)];
    let mut mock = Mock::new();
    let recording = mock.add(record(layout()));
    assert_eq!(mock.collect(recording), None);
    let response = mock.handle(&insert(&list));
    assert_eq!(response.status, 200);
    assert_eq!(mock.collect(recording), Some(&list));
}

#[test]
fn record_of_a_malformed_insert() {
    let mut request = insert(&vec![some_row(1)]);
    request.body.pop();
    let (_, recording) = serve(&record(layout()), &request);
    assert_eq!(recording, Recording::Malformed(DecodeError::Truncated));
}

#[test]
fn handlers_answer_in_the_order_in_which_they_were_added() {
    let client = ClientConfig::default();
    let mut mock = Mock::new();
    assert_eq!(mock.waiting(), 0);
    let first = mock.add(record_ddl());
    mock.add(failure(503));
    let third = mock.add(record_ddl());
    assert_eq!(mock.waiting(), 3);
    let a = client.query("CREATE TABLE a").do_execute(false).unwrap();
    let b = client.query("CREATE TABLE b").do_execute(false).unwrap();
    let c = client.query("CREATE TABLE c").do_execute(false).unwrap();
    assert_eq!(mock.handle(&a).status, 200);
    assert_eq!(mock.query(first), Some("CREATE TABLE a"));
    assert_eq!(mock.query(third), None);
    assert_eq!(mock.recording(third), Some(&Recording::Waiting));
    let response = mock.handle(&b);
    assert_eq!((response.status, response.reason.as_str()), (503, "Service Unavailable"));
    assert_eq!(mock.handle(&c).status, 200);
    assert_eq!(mock.query(third), Some("CREATE TABLE c"));
    assert_eq!(mock.query(first), Some("CREATE TABLE a"));
    assert_eq!(mock.waiting(), 0);
    assert_eq!(mock.recording(3), None);
}

#[test]
fn watch_gives_version_and_row() {
    let client = ClientConfig::default();
    let list = vec![some_row(1), some_row(2)];
    let events_layout = event_layout(layout());
    let events: Vec<Vec<Value>> = list.iter().map(|row| event_row(42, row.clone())).collect();
    let mut mock = Mock::new();
    let recording = mock.add(record_ddl());
    mock.add(watch(&events_layout, &events).unwrap());

    let ddl = live_view_ddl("lv_f1", "SELECT max(no) no FROM test");
    let created = mock.handle(&client.query(&ddl).do_execute(false).unwrap());
    assert_eq!(client.query(&ddl).execute(&created), Ok(()));

    let query = client.query(&watch_sql("lv_f1", false));
    let request = query.clone().fetch(&events_layout).unwrap().request().clone();
    assert_eq!(
        request.url,
        "http://localhost:8123/?query=WATCH+lv_f1+FORMAT+RowBinary"
    );
    let response = mock.handle(&request);
    let event = query.fetch_one(&events_layout, &response).unwrap();
    let (version, row) = split_event(event).unwrap();
    assert!(mock.query(recording).unwrap().contains("CREATE LIVE VIEW"));
    assert_eq!(version, 42);
    assert_eq!(row, some_row(1));
}

#[test]
fn watch_only_events_gives_versions() {
    let client = ClientConfig::default();
    let events_layout = event_layout(vec![]);
    let events: Vec<Vec<Value>> = (3..5).map(|version| event_row(version, vec![])).collect();
    assert_eq!(watch(&events_layout, &events), Some(watch_only_events(&vec![3, 4])));
    let mut mock = Mock::new();
    let recording = mock.add(record_ddl());
    mock.add(watch_only_events(&vec![3, 4]));
    let ddl = live_view_ddl("lv_f1", "SELECT max(no) no FROM test");
    mock.handle(&client.query(&ddl).do_execute(false).unwrap());
    let query = client.query(&watch_sql("lv_f1", true));
    let request = query.clone().fetch(&events_layout).unwrap().request().clone();
    assert_eq!(request.url, "http://localhost:8123/?query=WATCH+lv_f1+EVENTS+FORMAT+RowBinary");
    let response: Response = mock.handle(&request);
    let event = query.clone().fetch_one(&events_layout, &response).unwrap();
    assert_eq!(split_event(event), Some((3, vec![])));
    let all = query.fetch_all(&events_layout, &response).unwrap();
    assert_eq!(all, vec![vec![Value::UInt(3)], vec![Value::UInt(4)]]);
    assert!(mock.query(recording).unwrap().contains("CREATE LIVE VIEW"));
}

#[test]
fn live_view_statement_and_watch_query() {
    assert_eq!(
        live_view_ddl("lv", "SELECT 1"),
        "CREATE LIVE VIEW IF NOT EXISTS lv WITH TIMEOUT AS SELECT 1"
    );
    assert_eq!(watch_sql("lv", false), "WATCH lv");
    assert_eq!(watch_sql("lv", true), "WATCH lv EVENTS");
}

#[test]
fn event_layout_puts_the_version_first() {
    let events_layout = event_layout(layout());
    assert_eq!(events_layout.len(), 2);
    assert_eq!(
        events_layout[0],
        Column { name: "_version".to_string(), kind: ColumnKind::UInt64, nullable: false }
    );
    assert_eq!(events_layout[1], layout()[0]);
}

#[test]
fn split_event_refuses_what_is_no_event() {
    assert_eq!(split_event(vec![]), None);
    assert_eq!(split_event(vec![Value::Bool(true), Value::UInt(1)]), None);
    assert_eq!(split_event(vec![Value::UInt(7), Value::Null]), Some((7, vec![Value::Null])));
}

#[test]
fn whole_session_against_the_double() {
    let client = ClientConfig::default().with_url("http://127.0.0.1:40000");
    let list = vec![some_row(1), some_row(2)];
    let mut mock = Mock::new();

    let recording = mock.add(record_ddl());
    let create = client.query("CREATE TABLE test");
    let response = mock.handle(&create.clone().do_execute(false).unwrap());
    create.execute(&response).unwrap();
    assert!(mock.query(recording).unwrap().contains("CREATE TABLE"));

    mock.add(provide(&layout(), &list).unwrap());
    let select = client.query("SELECT ?fields FROM `who cares`");
    let response = mock.handle(select.clone().fetch(&layout()).unwrap().request());
    assert_eq!(select.clone().fetch_all(&layout(), &response).unwrap(), list);

    mock.add(failure(403));
    let response = mock.handle(select.clone().fetch(&layout()).unwrap().request());
    assert_eq!(
        select.fetch_all(&layout(), &response),
        Err(Error::BadResponse("Forbidden".to_string()))
    );

    let recording = mock.add(record(layout()));
    mock.handle(&insert(&list));
    assert_eq!(mock.collect(recording), Some(&list));
}

#[test]
fn rejection_reason_is_the_body_or_the_phrase() {
    assert_eq!(rejection_reason(403, b""), "Forbidden");
    assert_eq!(rejection_reason(403, b"Code: 516. Authentication failed"), "Code: 516. Authentication failed");
    assert_eq!(rejection_reason(500, &[0xFF, 0x00]), "Internal Server Error");
    assert_eq!(rejection_reason(799, b""), "<unknown status code>");
    assert_eq!(rejection_reason(404, " не найдено \n".as_bytes()), " не найдено \n");
}
