use vstd::prelude::*;
use crate::decode::{lemma_pow256_values, lemma_varint_limits};
use crate::encode::all_conform;
use crate::rowbinary::{conforms, decoded_rows, encoded_cell, encoded_row, encoded_row_from, encoded_rows, encoded_value, fits, fits_kind, le_bytes, le_value, number, parsed_cell, parsed_row_from, parsed_value, parsed_varint, pow256, rows_from, varint, varint_limit, width, Column, ColumnKind, Parse, ValueView};

verus! {

/// Whether `b` holds the bytes `e` at position `i`.
pub open spec fn holds_at(b: Seq<u8>, i: int, e: Seq<u8>) -> bool {
    &&& 0 <= i
    &&& i + e.len() <= b.len()
    &&& b.subrange(i, i + e.len()) == e
}

/// Bytes that hold two sequences one after the other hold each of them in its place.
proof fn lemma_holds_parts(b: Seq<u8>, i: int, e1: Seq<u8>, e2: Seq<u8>)
    requires
        holds_at(b, i, e1 + e2),
    ensures
        holds_at(b, i, e1),
        holds_at(b, i + e1.len(), e2),
{
    let whole = b.subrange(i, i + (e1 + e2).len());
    assert(b.subrange(i, i + e1.len()) =~= whole.subrange(0, e1.len() as int));
    assert(whole.subrange(0, e1.len() as int) =~= e1);
    assert(b.subrange(i + e1.len(), i + e1.len() + e2.len()) =~= whole.subrange(
        e1.len() as int,
        (e1 + e2).len() as int,
    ));
    assert(whole.subrange(e1.len() as int, (e1 + e2).len() as int) =~= e2);
}

/// The `w` low bytes of a number below 256 to the power of `w` are `w` bytes that hold
/// the number.
pub proof fn lemma_le_round_trip(v: nat, w: nat)
    requires
        v < pow256(w),
    ensures
        le_bytes(v, w).len() == w,
        le_value(le_bytes(v, w)) == v,
    decreases w,
{
    if w > 0 {
        let rest = le_bytes(v / 256, (w - 1) as nat);
        assert(v / 256 < pow256((w - 1) as nat)) by (nonlinear_arith)
            requires
                v < 256 * pow256((w - 1) as nat),
        ;
        lemma_le_round_trip(v / 256, (w - 1) as nat);
        assert(le_bytes(v, w).skip(1) =~= rest);
        assert(le_bytes(v, w)[0] == (v % 256) as u8);
    }
}

/// A length is read back from its bytes.
proof fn lemma_varint_parse(b: Seq<u8>, i: int, n: nat, k: nat)
    requires
        k <= 9,
        n < varint_limit(k),
        holds_at(b, i, varint(n)),
    ensures
        varint(n).len() >= 1,
        parsed_varint(b, i, k) == Parse::Ready(n, i + varint(n).len()),
    decreases n,
{
    lemma_varint_limits();
    let e = varint(n);
    assert(b[i] == b.subrange(i, i + e.len())[0]);
    if n < 128 {
    } else {
        let rest = varint(n / 128);
        assert(varint_limit(k) == 128 * varint_limit(k + 1)) by {
            if k >= 9 {
                assert(n < 2);
            }
        }
        assert(e == seq![(n % 128 + 128) as u8] + rest);
        lemma_holds_parts(b, i, seq![(n % 128 + 128) as u8], rest);
        lemma_varint_parse(b, i + 1, n / 128, k + 1);
        assert(e.len() == 1 + rest.len());
    }
}

/// A value that its kind can hold has at least one byte and is read back from its bytes.
proof fn lemma_value_parse(v: ValueView, kind: ColumnKind, b: Seq<u8>, i: int)
    requires
        fits_kind(v, kind),
        holds_at(b, i, encoded_value(v, kind)),
    ensures
        encoded_value(v, kind).len() >= 1,
        parsed_value(kind, b, i) == Parse::Ready(v, i + encoded_value(v, kind).len()),
{
    lemma_pow256_values();
    lemma_varint_limits();
    let e = encoded_value(v, kind);
    let w = width(kind);
    match v {
        ValueView::UInt(n) => {
            lemma_le_round_trip(n as nat, w);
        },
        ValueView::Int(n) => {
            let u: nat = if n >= 0 {
                n as nat
            } else {
                (n + pow256(w)) as nat
            };
            lemma_le_round_trip(u, w);
            assert(number(kind, u) == v);
        },
        ValueView::Bool(flag) => {
            assert(b[i] == b.subrange(i, i + e.len())[0]);
        },
        ValueView::Bytes(bytes) => {
            lemma_holds_parts(b, i, varint(bytes.len()), bytes);
            lemma_varint_parse(b, i, bytes.len(), 0);
        },
        ValueView::Null => {},
    }
}

/// A value that its column can hold has at least one byte and is read back from its
/// bytes.
proof fn lemma_cell_parse(v: ValueView, column: Column, b: Seq<u8>, i: int)
    requires
        fits(v, column),
        holds_at(b, i, encoded_cell(v, column)),
    ensures
        encoded_cell(v, column).len() >= 1,
        parsed_cell(column, b, i) == Parse::Ready(v, i + encoded_cell(v, column).len()),
{
    let e = encoded_cell(v, column);
    if column.nullable {
        assert(b[i] == b.subrange(i, i + e.len())[0]);
        if !(v is Null) {
            lemma_holds_parts(b, i, seq![0u8], encoded_value(v, column.kind));
            lemma_value_parse(v, column.kind, b, i + 1);
        }
    } else {
        lemma_value_parse(v, column.kind, b, i);
    }
}

/// The values of a row from column `c` on are read back from their bytes.
proof fn lemma_row_parse(row: Seq<ValueView>, layout: Seq<Column>, c: int, b: Seq<u8>, i: int)
    requires
        conforms(row, layout),
        0 <= c <= row.len(),
        holds_at(b, i, encoded_row_from(row, layout, c)),
    ensures
        c < row.len() ==> encoded_row_from(row, layout, c).len() >= 1,
        parsed_row_from(layout, c, b, i) == Parse::Ready(
            row.skip(c),
            i + encoded_row_from(row, layout, c).len(),
        ),
    decreases row.len() - c,
{
    if c >= row.len() {
        assert(row.skip(c) =~= Seq::empty());
    } else {
        let first = encoded_cell(row[c], layout[c]);
        let rest = encoded_row_from(row, layout, c + 1);
        assert(fits(row[c], layout[c]));
        lemma_holds_parts(b, i, first, rest);
        lemma_cell_parse(row[c], layout[c], b, i);
        lemma_row_parse(row, layout, c + 1, b, i + first.len());
        assert(seq![row[c]] + row.skip(c + 1) =~= row.skip(c));
    }
}

/// Rows that end where the bytes end are read back from their bytes.
proof fn lemma_rows_parse(rows: Seq<Seq<ValueView>>, layout: Seq<Column>, b: Seq<u8>, i: int)
    requires
        layout.len() > 0,
        all_conform(rows, layout),
        holds_at(b, i, encoded_rows(rows, layout)),
        i + encoded_rows(rows, layout).len() == b.len(),
    ensures
        rows_from(layout, b, i) == Ok::<Seq<Seq<ValueView>>, crate::error::DecodeError>(rows),
    decreases rows.len(),
{
    if rows.len() == 0 {
        assert(rows =~= Seq::empty());
    } else {
        let first = encoded_row(rows[0], layout);
        let rest = encoded_rows(rows.skip(1), layout);
        assert(conforms(rows[0], layout));
        lemma_holds_parts(b, i, first, rest);
        lemma_row_parse(rows[0], layout, 0, b, i);
        assert(rows[0].skip(0) =~= rows[0]);
        assert forall|j: int| 0 <= j < rows.skip(1).len() implies conforms(
            #[trigger] rows.skip(1)[j],
            layout,
        ) by {
            assert(rows.skip(1)[j] == rows[j + 1]);
        }
        lemma_rows_parse(rows.skip(1), layout, b, i + first.len());
        assert(seq![rows[0]] + rows.skip(1) =~= rows);
    }
}

/// Rows that conform to a layout of at least one column are read back from their bytes:
/// the same rows, in the same order.
pub proof fn lemma_decode_encoded(rows: Seq<Seq<ValueView>>, layout: Seq<Column>)
    requires
        layout.len() > 0,
        all_conform(rows, layout),
    ensures
        decoded_rows(layout, encoded_rows(rows, layout)) == Ok::<
            Seq<Seq<ValueView>>,
            crate::error::DecodeError,
        >(rows),
{
    let b = encoded_rows(rows, layout);
    assert(b.subrange(0, b.len() as int) =~= b);
    lemma_rows_parse(rows, layout, b, 0);
}

} // verus!
