use vstd::prelude::*;
use crate::decode::lemma_pow256_values;
use crate::rowbinary::{conforms, encoded_cell, encoded_row, encoded_row_from, encoded_rows, encoded_value, fits, fits_kind, le_bytes, pow256, row_view, rows_view, varint, width, Column, ColumnKind, Value, ValueView};

verus! {

/// Appends the `w` low bytes of `v`, the lowest first.
pub fn write_le(out: &mut Vec<u8>, v: u64, w: usize)
    ensures
        final(out)@ == old(out)@ + le_bytes(v as nat, w as nat),
{
    let mut rest: u64 = v;
    let mut j: usize = 0;
    proof {
        assert(out@ + le_bytes(rest as nat, w as nat) =~= old(out)@ + le_bytes(v as nat, w as nat));
    }
    while j < w
        invariant
            j <= w,
            out@ + le_bytes(rest as nat, (w - j) as nat) == old(out)@ + le_bytes(
                v as nat,
                w as nat,
            ),
        decreases w - j,
    {
        let ghost before = out@;
        let ghost tail = le_bytes((rest / 256) as nat, (w - j - 1) as nat);
        out.push((rest % 256) as u8);
        proof {
            assert(le_bytes(rest as nat, (w - j) as nat) == seq![(rest % 256) as u8] + tail);
            assert(out@ + tail =~= before + (seq![(rest % 256) as u8] + tail));
        }
        rest = rest / 256;
        j += 1;
    }
    proof {
        assert(out@ + le_bytes(rest as nat, 0) =~= out@);
    }
}

/// Appends a length, seven bits to a byte, the lowest first.
pub fn write_varint(out: &mut Vec<u8>, n: u64)
    ensures
        final(out)@ == old(out)@ + varint(n as nat),
{
    let mut rest: u64 = n;
    proof {
        assert(out@ + varint(rest as nat) =~= old(out)@ + varint(n as nat));
    }
    while rest >= 128
        invariant
            out@ + varint(rest as nat) == old(out)@ + varint(n as nat),
        decreases rest,
    {
        let ghost before = out@;
        let ghost tail = varint((rest / 128) as nat);
        out.push((rest % 128 + 128) as u8);
        proof {
            assert(varint(rest as nat) == seq![(rest % 128 + 128) as u8] + tail);
            assert(out@ + tail =~= before + (seq![(rest % 128 + 128) as u8] + tail));
        }
        rest = rest / 128;
    }
    let ghost before = out@;
    out.push(rest as u8);
    proof {
        assert(out@ =~= before + varint(rest as nat));
    }
}

/// Appends all of `bytes`.
pub fn write_all(out: &mut Vec<u8>, bytes: &[u8])
    ensures
        final(out)@ == old(out)@ + bytes@,
{
    let n = bytes.len();
    let mut i: usize = 0;
    proof {
        assert(out@ =~= old(out)@ + bytes@.take(0));
    }
    while i < n
        invariant
            n == bytes@.len(),
            i <= n,
            out@ == old(out)@ + bytes@.take(i as int),
        decreases n - i,
    {
        out.push(bytes[i]);
        proof {
            assert(out@ =~= old(out)@ + bytes@.take(i + 1));
        }
        i += 1;
    }
    proof {
        assert(bytes@.take(n as int) =~= bytes@);
    }
}

/// Whether a column of this kind can hold `v`.
pub fn value_fits_kind(v: &Value, kind: ColumnKind) -> (r: bool)
    ensures
        r == fits_kind(v@, kind),
{
    proof {
        lemma_pow256_values();
    }
    match v {
        Value::UInt(n) => match kind {
            ColumnKind::UInt8 => *n < 0x100,
            ColumnKind::UInt16 => *n < 0x1_0000,
            ColumnKind::UInt32 => *n < 0x1_0000_0000,
            ColumnKind::UInt64 => true,
            _ => false,
        },
        Value::Int(n) => match kind {
            ColumnKind::Int8 => -0x80 <= *n && *n < 0x80,
            ColumnKind::Int16 => -0x8000 <= *n && *n < 0x8000,
            ColumnKind::Int32 => -0x8000_0000 <= *n && *n < 0x8000_0000,
            ColumnKind::Int64 => true,
            _ => false,
        },
        Value::Bool(_) => match kind {
            ColumnKind::Bool => true,
            _ => false,
        },
        Value::Bytes(bytes) => match kind {
            ColumnKind::String => bytes.len() as u64 <= u64::MAX,
            _ => false,
        },
        Value::Null => false,
    }
}

/// Whether `column` can hold `v`.
pub fn value_fits(v: &Value, column: &Column) -> (r: bool)
    ensures
        r == fits(v@, *column),
{
    match v {
        Value::Null => column.nullable,
        _ => value_fits_kind(v, column.kind),
    }
}

/// Whether `row` has one value for each column of `layout`, each of them one that its
/// column can hold.
pub fn row_conforms(row: &Vec<Value>, layout: &Vec<Column>) -> (r: bool)
    ensures
        r == conforms(row_view(row@), layout@),
{
    if row.len() != layout.len() {
        return false;
    }
    let mut i: usize = 0;
    while i < row.len()
        invariant
            i <= row.len(),
            row.len() == layout.len(),
            forall|j: int| 0 <= j < i ==> fits(#[trigger] row_view(row@)[j], layout@[j]),
        decreases row.len() - i,
    {
        if !value_fits(&row[i], &layout[i]) {
            proof {
                assert(!fits(row_view(row@)[i as int], layout@[i as int]));
            }
            return false;
        }
        i += 1;
    }
    true
}

/// The number that stands for `n` in `w` bytes: `n` itself, or `n` and 256 to the power
/// of `w` where `n` is below zero.
fn from_signed(n: i64, kind: ColumnKind) -> (u: u64)
    requires
        fits_kind(ValueView::Int(n), kind),
    ensures
        n >= 0 ==> u == n,
        n < 0 ==> u == n + pow256(width(kind)),
{
    proof {
        lemma_pow256_values();
    }
    if n >= 0 {
        n as u64
    } else {
        let half: u64 = match kind {
            ColumnKind::Int8 => 0x80,
            ColumnKind::Int16 => 0x8000,
            ColumnKind::Int32 => 0x8000_0000,
            _ => 0x8000_0000_0000_0000,
        };
        (n + (half - 1) as i64 + 1) as u64 + half
    }
}

/// Appends the bytes of a value that is not null, in a column of this kind.
pub fn encode_value(out: &mut Vec<u8>, v: &Value, kind: ColumnKind)
    requires
        fits_kind(v@, kind),
    ensures
        final(out)@ == old(out)@ + encoded_value(v@, kind),
{
    let w: usize = match kind {
        ColumnKind::UInt8 | ColumnKind::Int8 => 1,
        ColumnKind::UInt16 | ColumnKind::Int16 => 2,
        ColumnKind::UInt32 | ColumnKind::Int32 => 4,
        ColumnKind::UInt64 | ColumnKind::Int64 => 8,
        _ => 0,
    };
    match v {
        Value::UInt(n) => {
            write_le(out, *n, w);
        },
        Value::Int(n) => {
            write_le(out, from_signed(*n, kind), w);
        },
        Value::Bool(b) => {
            out.push(if *b { 1u8 } else { 0u8 });
            proof {
                assert(out@ =~= old(out)@ + encoded_value(v@, kind));
            }
        },
        Value::Bytes(bytes) => {
            write_varint(out, bytes.len() as u64);
            write_all(out, bytes.as_slice());
            proof {
                assert(out@ =~= old(out)@ + encoded_value(v@, kind));
            }
        },
        Value::Null => {},
    }
}

/// Appends the bytes of a value in its column.
pub fn encode_cell(out: &mut Vec<u8>, v: &Value, column: &Column)
    requires
        fits(v@, *column),
    ensures
        final(out)@ == old(out)@ + encoded_cell(v@, *column),
{
    if column.nullable {
        match v {
            Value::Null => {
                out.push(1u8);
            },
            _ => {
                out.push(0u8);
                encode_value(out, v, column.kind);
                proof {
                    assert(out@ =~= old(out)@ + encoded_cell(v@, *column));
                }
            },
        }
    } else {
        encode_value(out, v, column.kind);
    }
}

/// Appends the bytes of `row` where it conforms to `layout`, and says whether it does;
/// a row that does not conform leaves `out` as it was.
pub fn encode_row(out: &mut Vec<u8>, row: &Vec<Value>, layout: &Vec<Column>) -> (r: bool)
    ensures
        r == conforms(row_view(row@), layout@),
        r ==> final(out)@ == old(out)@ + encoded_row(row_view(row@), layout@),
        !r ==> final(out)@ == old(out)@,
{
    if !row_conforms(row, layout) {
        return false;
    }
    let ghost values = row_view(row@);
    let mut c: usize = 0;
    proof {
        assert(out@ + encoded_row_from(values, layout@, 0) =~= old(out)@ + encoded_row(
            values,
            layout@,
        ));
    }
    while c < row.len()
        invariant
            c <= row.len(),
            values == row_view(row@),
            conforms(values, layout@),
            out@ + encoded_row_from(values, layout@, c as int) == old(out)@ + encoded_row(
                values,
                layout@,
            ),
        decreases row.len() - c,
    {
        let ghost before = out@;
        let ghost tail = encoded_row_from(values, layout@, c + 1);
        proof {
            assert(fits(values[c as int], layout@[c as int]));
        }
        encode_cell(out, &row[c], &layout[c]);
        proof {
            assert(out@ + tail =~= before + (encoded_cell(values[c as int], layout@[c as int])
                + tail));
        }
        c += 1;
    }
    proof {
        assert(out@ + encoded_row_from(values, layout@, row.len() as int) =~= out@);
    }
    true
}

/// Whether every row of `rows` conforms to `layout`.
pub open spec fn all_conform(rows: Seq<Seq<ValueView>>, layout: Seq<Column>) -> bool {
    forall|i: int| 0 <= i < rows.len() ==> conforms(#[trigger] rows[i], layout)
}

/// The bytes of `rows`, one row after the other; `None` where a row does not conform to
/// `layout`.
pub fn encode_rows(rows: &Vec<Vec<Value>>, layout: &Vec<Column>) -> (r: Option<Vec<u8>>)
    ensures
        r is Some == all_conform(rows_view(rows@), layout@),
        r is Some ==> r->Some_0@ == encoded_rows(rows_view(rows@), layout@),
{
    let ghost all = rows_view(rows@);
    let mut out: Vec<u8> = Vec::new();
    let mut i: usize = 0;
    proof {
        assert(all.take(0) =~= Seq::empty());
    }
    while i < rows.len()
        invariant
            i <= rows.len(),
            all == rows_view(rows@),
            all_conform(all.take(i as int), layout@),
            out@ == encoded_rows(all.take(i as int), layout@),
        decreases rows.len() - i,
    {
        let ghost done = all.take(i as int);
        if !encode_row(&mut out, &rows[i], layout) {
            proof {
                assert(!conforms(all[i as int], layout@));
            }
            return None;
        }
        proof {
            assert(all.take(i + 1) =~= done.push(all[i as int]));
            lemma_encoded_rows_push(done, all[i as int], layout@);
            assert forall|j: int| 0 <= j < i + 1 implies conforms(
                #[trigger] all.take(i + 1)[j],
                layout@,
            ) by {
                if j < i {
                    assert(done[j] == all.take(i + 1)[j]);
                }
            }
        }
        i += 1;
    }
    proof {
        assert(all.take(rows.len() as int) =~= all);
    }
    Some(out)
}

/// The bytes of rows and one more row are the bytes of the rows, then those of the row.
pub proof fn lemma_encoded_rows_push(
    rows: Seq<Seq<ValueView>>,
    row: Seq<ValueView>,
    layout: Seq<Column>,
)
    ensures
        encoded_rows(rows.push(row), layout) == encoded_rows(rows, layout) + encoded_row(
            row,
            layout,
        ),
    decreases rows.len(),
{
    let more = rows.push(row);
    if rows.len() == 0 {
        assert(more.skip(1) =~= Seq::<Seq<ValueView>>::empty());
        assert(more[0] == row);
        assert(encoded_rows(more.skip(1), layout) =~= Seq::<u8>::empty());
        assert(encoded_rows(more, layout) =~= encoded_row(row, layout));
        assert(encoded_rows(rows, layout) + encoded_row(row, layout) =~= encoded_row(row, layout));
    } else {
        assert(more.skip(1) =~= rows.skip(1).push(row));
        lemma_encoded_rows_push(rows.skip(1), row, layout);
        assert(encoded_rows(more, layout) =~= encoded_rows(rows, layout) + encoded_row(
            row,
            layout,
        ));
    }
}

} // verus!
