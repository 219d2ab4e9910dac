use clickhouse::cursor::{Fetched, RowCursor};
use clickhouse::encode::encode_rows;
use clickhouse::error::{DecodeError, Error};
use clickhouse::request::{Method, Request};
use clickhouse::rowbinary::{Column, ColumnKind, Value};

fn layout() -> Vec<Column> {
    vec![
        Column { name: "no".to_string(), kind: ColumnKind::UInt16, nullable: false },
        Column { name: "name".to_string(), kind: ColumnKind::String, nullable: true },
    ]
}

fn request() -> Request {
    Request { method: Method::Get, url: "http://h/?".to_string(), headers: vec![], body: vec![] }
}

fn rows() -> Vec<Vec<Value>> {
    vec![
        vec![Value::UInt(1), Value::Bytes(b"one".to_vec())],
        vec![Value::UInt(2), Value::Null],
        vec![Value::UInt(3), Value::Bytes(vec![])],
    ]
}

#[test]
fn cursor_waits_for_the_response() {
    let mut cursor = RowCursor::new(request(), layout());
    assert_eq!(cursor.request(), &request());
    assert_eq!(cursor.next(), Ok(Fetched::Pending));
    cursor.feed(&encode_rows(&rows(), &layout()).unwrap());
    assert_eq!(cursor.next(), Ok(Fetched::Pending));
    cursor.respond(200, "OK");
    assert_eq!(cursor.next(), Ok(Fetched::Row(rows()[0].clone())));
}

#[test]
fn cursor_gives_rows_in_order_and_then_the_end() {
    let mut cursor = RowCursor::new(request(), layout());
    cursor.respond(200, "OK");
    cursor.feed(&encode_rows(&rows(), &layout()).unwrap());
    for row in rows() {
        assert_eq!(cursor.next(), Ok(Fetched::Row(row)));
    }
    assert_eq!(cursor.next(), Ok(Fetched::Pending));
    cursor.end();
    assert_eq!(cursor.next(), Ok(Fetched::End));
    assert_eq!(cursor.next(), Ok(Fetched::End));
}

#[test]
fn cursor_never_gives_part_of_a_row() {
    let body = encode_rows(&rows(), &layout()).unwrap();
    let mut cursor = RowCursor::new(request(), layout());
    cursor.respond(200, "OK");
    let mut got = Vec::new();
    for byte in body {
        cursor.feed(&[byte]);
        loop {
            match cursor.next() {
                Ok(Fetched::Row(row)) => got.push(row),
                Ok(Fetched::Pending) => break,
                other => panic!("{other:?}"),
            }
        }
    }
    cursor.end();
    assert_eq!(cursor.next(), Ok(Fetched::End));
    assert_eq!(got, rows());
}

#[test]
fn cursor_over_an_empty_body_ends_at_once() {
    let mut cursor = RowCursor::new(request(), layout());
    cursor.respond(204, "No Content");
    cursor.end();
    assert_eq!(cursor.next(), Ok(Fetched::End));
}

#[test]
fn stream_that_ends_inside_a_row_is_truncated() {
    let body = encode_rows(&rows(), &layout()).unwrap();
    let mut cursor = RowCursor::new(request(), layout());
    cursor.respond(200, "OK");
    cursor.feed(&body[..body.len() - 1]);
    assert_eq!(cursor.next(), Ok(Fetched::Row(rows()[0].clone())));
    assert_eq!(cursor.next(), Ok(Fetched::Row(rows()[1].clone())));
    assert_eq!(cursor.next(), Ok(Fetched::Pending));
    cursor.end();
    assert_eq!(cursor.next(), Err(Error::Decode(DecodeError::Truncated)));
    assert_eq!(cursor.next(), Err(Error::Decode(DecodeError::Truncated)));
}

#[test]
fn decode_error_stops_the_cursor_for_good() {
    let mut body = encode_rows(&rows()[..1].to_vec(), &layout()).unwrap();
    body.extend_from_slice(&[9, 0, 7]);
    let mut cursor = RowCursor::new(request(), layout());
    cursor.respond(200, "OK");
    cursor.feed(&body);
    assert_eq!(cursor.next(), Ok(Fetched::Row(rows()[0].clone())));
    assert_eq!(cursor.next(), Err(Error::Decode(DecodeError::InvalidDiscriminant)));
    cursor.feed(&encode_rows(&rows(), &layout()).unwrap());
    assert_eq!(cursor.next(), Err(Error::Decode(DecodeError::InvalidDiscriminant)));
}

#[test]
fn rejected_response_gives_the_reason() {
    let mut cursor = RowCursor::new(request(), layout());
    cursor.respond(403, "Forbidden");
    cursor.feed(&encode_rows(&rows(), &layout()).unwrap());
    cursor.end();
    assert_eq!(cursor.next(), Err(Error::BadResponse("Forbidden".to_string())));
    assert_eq!(cursor.next(), Err(Error::BadResponse("Forbidden".to_string())));
}

#[test]
fn status_of_success_is_200_to_299() {
    for (status, ok) in [(199u16, false), (200, true), (204, true), (299, true), (300, false), (500, false)] {
        let mut cursor = RowCursor::new(request(), layout());
        cursor.respond(status, "why");
        cursor.end();
        if ok {
            assert_eq!(cursor.next(), Ok(Fetched::End));
        } else {
            assert_eq!(cursor.next(), Err(Error::BadResponse("why".to_string())));
        }
    }
}
