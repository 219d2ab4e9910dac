use vstd::prelude::*;
use crate::rowbinary::{parsed_cell, parsed_row_from, parsed_value, parsed_varint, width, Column, ColumnKind, Parse};

verus! {

/// `r` with its position moved by `d`.
pub open spec fn moved<T>(r: Parse<T>, d: int) -> Parse<T> {
    match r {
        Parse::Ready(v, j) => Parse::Ready(v, j + d),
        Parse::More => Parse::More,
        Parse::Fail(e) => Parse::Fail(e),
    }
}

proof fn lemma_varint_in_window(b: Seq<u8>, p: int, i: int, k: nat)
    requires
        0 <= p <= b.len(),
        0 <= i,
    ensures
        parsed_varint(b.skip(p), i, k) == moved(parsed_varint(b, i + p, k), -p),
    decreases 10 - k,
{
    if i < b.skip(p).len() && k < 9 && b[i + p] >= 128 {
        lemma_varint_in_window(b, p, i + 1, k + 1);
    }
}

proof fn lemma_value_in_window(kind: ColumnKind, b: Seq<u8>, p: int, i: int)
    requires
        0 <= p <= b.len(),
        0 <= i,
    ensures
        parsed_value(kind, b.skip(p), i) == moved(parsed_value(kind, b, i + p), -p),
{
    let s = b.skip(p);
    if i > s.len() {
    } else if kind == ColumnKind::Bool {
    } else if kind == ColumnKind::String {
        lemma_varint_in_window(b, p, i, 0);
        lemma_varint_position(s, i, 0);
        match parsed_varint(s, i, 0) {
            Parse::Ready(n, j) => {
                if j + n <= s.len() {
                    assert(s.subrange(j, j + n) =~= b.subrange(j + p, j + p + n));
                }
            },
            _ => {},
        }
    } else if i + width(kind) <= s.len() {
        assert(s.subrange(i, i + width(kind)) =~= b.subrange(i + p, i + p + width(kind)));
    }
}

proof fn lemma_cell_in_window(column: Column, b: Seq<u8>, p: int, i: int)
    requires
        0 <= p <= b.len(),
        0 <= i,
    ensures
        parsed_cell(column, b.skip(p), i) == moved(parsed_cell(column, b, i + p), -p),
{
    lemma_value_in_window(column.kind, b, p, i);
    lemma_value_in_window(column.kind, b, p, i + 1);
}

/// Reading a row in the bytes from `p` on is reading it in all the bytes, `p` further on.
pub proof fn lemma_row_in_window(layout: Seq<Column>, c: int, b: Seq<u8>, p: int, i: int)
    requires
        0 <= p <= b.len(),
        0 <= i,
    ensures
        parsed_row_from(layout, c, b.skip(p), i) == moved(
            parsed_row_from(layout, c, b, i + p),
            -p,
        ),
    decreases layout.len() - c,
{
    if 0 <= c < layout.len() {
        lemma_cell_in_window(layout[c], b, p, i);
        match parsed_cell(layout[c], b.skip(p), i) {
            Parse::Ready(v, j) => {
                lemma_cell_position(layout[c], b.skip(p), i);
                lemma_row_in_window(layout, c + 1, b, p, j);
            },
            _ => {},
        }
    }
}

proof fn lemma_varint_position(b: Seq<u8>, i: int, k: nat)
    requires
        0 <= i,
    ensures
        parsed_varint(b, i, k) matches Parse::Ready(_, j) ==> i < j,
    decreases 10 - k,
{
    if i < b.len() && k < 9 && b[i] >= 128 {
        lemma_varint_position(b, i + 1, k + 1);
    }
}

/// A value is read forwards.
proof fn lemma_cell_position(column: Column, b: Seq<u8>, i: int)
    requires
        0 <= i,
    ensures
        parsed_cell(column, b, i) matches Parse::Ready(_, j) ==> i <= j,
{
    lemma_varint_position(b, i, 0);
    lemma_varint_position(b, i + 1, 0);
}

proof fn lemma_varint_is_stable(b: Seq<u8>, more: Seq<u8>, i: int, k: nat)
    requires
        0 <= i,
        !(parsed_varint(b, i, k) is More),
    ensures
        parsed_varint(b + more, i, k) == parsed_varint(b, i, k),
    decreases 10 - k,
{
    if i < b.len() && k < 9 && b[i] >= 128 {
        lemma_varint_is_stable(b, more, i + 1, k + 1);
    }
}

proof fn lemma_value_is_stable(kind: ColumnKind, b: Seq<u8>, more: Seq<u8>, i: int)
    requires
        0 <= i,
        !(parsed_value(kind, b, i) is More),
    ensures
        parsed_value(kind, b + more, i) == parsed_value(kind, b, i),
{
    let all = b + more;
    if kind == ColumnKind::Bool {
    } else if kind == ColumnKind::String {
        lemma_varint_is_stable(b, more, i, 0);
        lemma_varint_position(b, i, 0);
        match parsed_varint(b, i, 0) {
            Parse::Ready(n, j) => {
                assert(all.subrange(j, j + n) =~= b.subrange(j, j + n));
            },
            _ => {},
        }
    } else {
        assert(all.subrange(i, i + width(kind)) =~= b.subrange(i, i + width(kind)));
    }
}

proof fn lemma_cell_is_stable(column: Column, b: Seq<u8>, more: Seq<u8>, i: int)
    requires
        0 <= i,
        !(parsed_cell(column, b, i) is More),
    ensures
        parsed_cell(column, b + more, i) == parsed_cell(column, b, i),
{
    if !column.nullable {
        lemma_value_is_stable(column.kind, b, more, i);
    } else if b[i] == 0 {
        lemma_value_is_stable(column.kind, b, more, i + 1);
    }
}

/// What was read stays read: a row that the bytes at hand hold whole, and an error in
/// them, are the same whatever bytes come behind.
pub proof fn lemma_row_is_stable(layout: Seq<Column>, c: int, b: Seq<u8>, more: Seq<u8>, i: int)
    requires
        0 <= i,
        !(parsed_row_from(layout, c, b, i) is More),
    ensures
        parsed_row_from(layout, c, b + more, i) == parsed_row_from(layout, c, b, i),
    decreases layout.len() - c,
{
    if 0 <= c < layout.len() {
        lemma_cell_is_stable(layout[c], b, more, i);
        match parsed_cell(layout[c], b, i) {
            Parse::Ready(v, j) => {
                lemma_cell_position(layout[c], b, i);
                lemma_row_is_stable(layout, c + 1, b, more, j);
            },
            _ => {},
        }
    }
}

} // verus!
