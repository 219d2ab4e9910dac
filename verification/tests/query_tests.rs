use clickhouse::encode::encode_rows;
use clickhouse::{
    Bind, BindError, ClientConfig, Column, ColumnKind, ConfigError, DecodeError, Error, Fetched,
    Method, Query, Response, Value,
};

fn layout() -> Vec<Column> {
    vec![
        Column { name: "no".to_string(), kind: ColumnKind::UInt32, nullable: false },
        Column { name: "name".to_string(), kind: ColumnKind::String, nullable: false },
    ]
}

fn row(no: u32, name: &str) -> Vec<Value> {
    vec![Value::UInt(no as u64), Value::Bytes(name.as_bytes().to_vec())]
}

fn ok(rows: &Vec<Vec<Value>>) -> Response {
    Response { status: 200, reason: "OK".to_string(), body: encode_rows(rows, &layout()).unwrap() }
}

#[test]
fn fetch_binds_fields_and_names_the_format() {
    let client = ClientConfig::default();
    let cursor = client
        .query("SELECT ?fields FROM some WHERE no BETWEEN ? AND ?")
        .bind(Bind::UInt(0))
        .bind(Bind::UInt(1))
        .fetch(&layout())
        .unwrap();
    let request = cursor.request();
    assert_eq!(request.method, Method::Get);
    assert_eq!(
        request.url,
        "http://localhost:8123/?query=SELECT+no%2Cname+FROM+some+WHERE+no+BETWEEN+0+AND+1+FORMAT+RowBinary"
    );
    assert!(request.body.is_empty());
}

#[test]
fn fetch_of_a_long_query_is_posted_read_only() {
    let client = ClientConfig::default();
    let template = format!("SELECT ?fields FROM t WHERE s = '{}'", "z".repeat(8192));
    let cursor = Query::new(&client, &template).fetch(&layout()).unwrap();
    let request = cursor.request();
    assert_eq!(request.method, Method::Post);
    assert_eq!(request.url, "http://localhost:8123/?readonly=1");
    let expected = format!("SELECT no,name FROM t WHERE s = '{}' FORMAT RowBinary", "z".repeat(8192));
    assert_eq!(request.body, expected.into_bytes());
}

#[test]
fn fetch_fails_at_once_where_the_text_does_not_render() {
    let client = ClientConfig::default();
    let missing = client.query("SELECT ?fields FROM t WHERE a = ?").fetch(&layout());
    assert_eq!(missing.err(), Some(Error::Bind(BindError::MissingArgument)));
    let unused = client.query("SELECT ?fields FROM t").bind(Bind::UInt(1)).fetch(&layout());
    assert_eq!(unused.err(), Some(Error::Bind(BindError::UnusedArguments)));
    let bad = client
        .query("SELECT ?fields FROM ?")
        .bind(Bind::Identifier("who cares".to_string()))
        .fetch(&layout());
    assert_eq!(bad.err(), Some(Error::Bind(BindError::InvalidIdentifier)));
}

#[test]
fn fetch_fails_where_the_client_is_misconfigured() {
    let client = ClientConfig::default().with_url("nowhere");
    let r = client.query("SELECT ?fields FROM t").fetch(&layout());
    assert_eq!(r.err(), Some(Error::Config(ConfigError::Url)));
}

#[test]
fn binding_error_comes_before_configuration_error() {
    let client = ClientConfig::default().with_url("nowhere");
    let r = client.query("SELECT ?").do_execute(true);
    assert_eq!(r, Err(Error::Bind(BindError::MissingArgument)));
}

#[test]
fn do_execute_for_writing_posts_the_text() {
    let client = ClientConfig::default();
    let request = client
        .query("INSERT INTO t VALUES (?, ?)")
        .bind(Bind::Int(-5))
        .bind(Bind::Str("it's".to_string()))
        .do_execute(false)
        .unwrap();
    assert_eq!(request.method, Method::Post);
    assert_eq!(request.url, "http://localhost:8123/?");
    assert_eq!(request.body, b"INSERT INTO t VALUES (-5, 'it\\'s')".to_vec());
    assert_eq!(request.headers, vec![("content-length".to_string(), "34".to_string())]);
}

#[test]
fn execute_succeeds_on_success_only() {
    let client = ClientConfig::default();
    let good = Response { status: 200, reason: "OK".to_string(), body: b"ignored".to_vec() };
    assert_eq!(client.query("CREATE TABLE test").execute(&good), Ok(()));
    let bad = Response { status: 500, reason: "Code: 62. Syntax error".to_string(), body: vec![] };
    assert_eq!(
        client.query("CREATE TABLE test").execute(&bad),
        Err(Error::BadResponse("Code: 62. Syntax error".to_string()))
    );
    assert_eq!(
        client.query("CREATE TABLE ?").execute(&good),
        Err(Error::Bind(BindError::MissingArgument))
    );
}

#[test]
fn response_finish_keeps_the_reason_as_it_is() {
    let odd = Response { status: 403, reason: " Forbidden\r\n ".to_string(), body: vec![] };
    assert_eq!(odd.finish(), Err(Error::BadResponse(" Forbidden\r\n ".to_string())));
}

#[test]
fn fetch_one_over_zero_rows_fails_not_found() {
    let client = ClientConfig::default();
    let r = client.query("SELECT ?fields FROM t").fetch_one(&layout(), &ok(&vec![]));
    assert_eq!(r, Err(Error::RowNotFound));
}

#[test]
fn fetch_one_over_one_row_returns_it() {
    let client = ClientConfig::default();
    let r = client.query("SELECT ?fields FROM t").fetch_one(&layout(), &ok(&vec![row(1, "a")]));
    assert_eq!(r, Ok(row(1, "a")));
}

#[test]
fn fetch_one_over_more_rows_returns_the_first() {
    let client = ClientConfig::default();
    let rows = vec![row(1, "a"), row(2, "b"), row(3, "c")];
    let r = client.query("SELECT ?fields FROM t").fetch_one(&layout(), &ok(&rows));
    assert_eq!(r, Ok(row(1, "a")));
}

#[test]
fn fetch_one_does_not_read_behind_the_first_row() {
    let client = ClientConfig::default();
    let mut response = ok(&vec![row(1, "a")]);
    response.body.extend_from_slice(&[1, 2]);
    let r = client.query("SELECT ?fields FROM t").fetch_one(&layout(), &response);
    assert_eq!(r, Ok(row(1, "a")));
    let all = client.query("SELECT ?fields FROM t").fetch_all(&layout(), &response);
    assert_eq!(all, Err(Error::Decode(DecodeError::Truncated)));
}

#[test]
fn fetch_optional_over_zero_rows_is_none() {
    let client = ClientConfig::default();
    let q = client.query("SELECT ?fields FROM t");
    assert_eq!(q.clone().fetch_optional(&layout(), &ok(&vec![])), Ok(None));
    assert_eq!(q.fetch_optional(&layout(), &ok(&vec![row(9, "z"), row(8, "y")])), Ok(Some(row(9, "z"))));
}

#[test]
fn fetch_all_returns_rows_in_order() {
    let client = ClientConfig::default();
    let rows = vec![row(3, "c"), row(1, "a"), row(2, "b")];
    let r = client.query("SELECT ?fields FROM t").fetch_all(&layout(), &ok(&rows));
    assert_eq!(r, Ok(rows));
}

#[test]
fn fetch_all_over_many_rows() {
    let client = ClientConfig::default();
    for n in [0u32, 1, 19999, 20000, 20001, 40000] {
        let rows: Vec<Vec<Value>> = (0..n).map(|i| row(i, "r")).collect();
        let got = client.query("SELECT ?fields FROM t").fetch_all(&layout(), &ok(&rows)).unwrap();
        assert_eq!(got.len(), n as usize);
        assert_eq!(got, rows);
    }
}

#[test]
fn fetch_reports_the_server_s_reason() {
    let client = ClientConfig::default();
    let forbidden = Response { status: 403, reason: "Forbidden".to_string(), body: vec![] };
    let q = client.query("SELECT ?fields FROM t");
    assert_eq!(
        q.clone().fetch_all(&layout(), &forbidden),
        Err(Error::BadResponse("Forbidden".to_string()))
    );
    assert_eq!(
        q.clone().fetch_one(&layout(), &forbidden),
        Err(Error::BadResponse("Forbidden".to_string()))
    );
    assert_eq!(
        q.clone().fetch_optional(&layout(), &forbidden),
        Err(Error::BadResponse("Forbidden".to_string()))
    );
    let mut cursor = q.fetch(&layout()).unwrap();
    cursor.respond(403, "Forbidden");
    assert_eq!(cursor.next(), Err(Error::BadResponse("Forbidden".to_string())));
}

#[test]
fn decode_errors_surface_as_rows_are_pulled() {
    let client = ClientConfig::default();
    let mut cursor = client.query("SELECT ?fields FROM t").fetch(&layout()).unwrap();
    cursor.respond(200, "OK");
    let mut body = encode_rows(&vec![row(1, "a")], &layout()).unwrap();
    body.extend_from_slice(&[0, 0, 0, 0, 0xFF, 0xFF, 0xFF, 0xFF, 0xFF, 0xFF, 0xFF, 0xFF, 0xFF, 0xFF]);
    cursor.feed(&body);
    cursor.end();
    assert_eq!(cursor.next(), Ok(Fetched::Row(row(1, "a"))));
    assert_eq!(cursor.next(), Err(Error::Decode(DecodeError::MalformedLength)));
}

#[test]
fn bind_is_by_position() {
    let client = ClientConfig::default();
    let a = client.query("? ?").bind(Bind::UInt(1)).bind(Bind::UInt(2)).do_execute(false).unwrap();
    let b = client.query("? ?").bind(Bind::UInt(2)).bind(Bind::UInt(1)).do_execute(false).unwrap();
    assert_eq!(a.body, b"1 2".to_vec());
    assert_eq!(b.body, b"2 1".to_vec());
}
