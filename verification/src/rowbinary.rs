use vstd::prelude::*;
use crate::error::DecodeError;

verus! {

/// What a column holds.
#[derive(Debug, Clone, Copy, PartialEq, Eq)]
pub enum ColumnKind {
    UInt8,
    UInt16,
    UInt32,
    UInt64,
    Int8,
    Int16,
    Int32,
    Int64,
    Bool,
    String,
}

/// One column of a row: its name, what it holds, and whether it may hold nothing.
#[derive(Debug, Clone, PartialEq, Eq)]
pub struct Column {
    pub name: String,
    pub kind: ColumnKind,
    pub nullable: bool,
}

/// One value of a row.
#[derive(Debug, Clone, PartialEq, Eq)]
pub enum Value {
    UInt(u64),
    Int(i64),
    Bool(bool),
    Bytes(Vec<u8>),
    Null,
}

/// A value, as contracts speak of it.
pub enum ValueView {
    UInt(u64),
    Int(i64),
    Bool(bool),
    Bytes(Seq<u8>),
    Null,
}

impl View for Value {
    type V = ValueView;

    open spec fn view(&self) -> ValueView {
        match *self {
            Value::UInt(n) => ValueView::UInt(n),
            Value::Int(n) => ValueView::Int(n),
            Value::Bool(b) => ValueView::Bool(b),
            Value::Bytes(bytes) => ValueView::Bytes(bytes@),
            Value::Null => ValueView::Null,
        }
    }
}

/// The values of a row.
pub open spec fn row_view(row: Seq<Value>) -> Seq<ValueView> {
    Seq::new(row.len(), |i: int| row[i]@)
}

/// The rows of a result.
pub open spec fn rows_view(rows: Seq<Vec<Value>>) -> Seq<Seq<ValueView>> {
    Seq::new(rows.len(), |i: int| row_view(rows[i]@))
}

/// The number of bytes of a number of this kind; 0 for a kind that is no number.
pub open spec fn width(kind: ColumnKind) -> nat {
    match kind {
        ColumnKind::UInt8 | ColumnKind::Int8 => 1,
        ColumnKind::UInt16 | ColumnKind::Int16 => 2,
        ColumnKind::UInt32 | ColumnKind::Int32 => 4,
        ColumnKind::UInt64 | ColumnKind::Int64 => 8,
        ColumnKind::Bool | ColumnKind::String => 0,
    }
}

/// Whether a column of this kind holds numbers without a sign.
pub open spec fn is_unsigned(kind: ColumnKind) -> bool {
    kind == ColumnKind::UInt8 || kind == ColumnKind::UInt16 || kind == ColumnKind::UInt32 || kind
        == ColumnKind::UInt64
}

/// Whether a column of this kind holds numbers with a sign.
pub open spec fn is_signed(kind: ColumnKind) -> bool {
    kind == ColumnKind::Int8 || kind == ColumnKind::Int16 || kind == ColumnKind::Int32 || kind
        == ColumnKind::Int64
}

/// 256 to the power of `w`.
pub open spec fn pow256(w: nat) -> nat
    decreases w,
{
    if w == 0 {
        1
    } else {
        256 * pow256((w - 1) as nat)
    }
}

/// The `w` low bytes of `v`, the lowest first.
pub open spec fn le_bytes(v: nat, w: nat) -> Seq<u8>
    decreases w,
{
    if w == 0 {
        Seq::empty()
    } else {
        seq![(v % 256) as u8] + le_bytes(v / 256, (w - 1) as nat)
    }
}

/// The number whose bytes are `b`, the lowest first.
pub open spec fn le_value(b: Seq<u8>) -> nat
    decreases b.len(),
{
    if b.len() == 0 {
        0
    } else {
        b[0] as nat + 256 * le_value(b.skip(1))
    }
}

/// A length as a sequence of groups of seven bits, the lowest first, each byte but the
/// last with its high bit set.
pub open spec fn varint(n: nat) -> Seq<u8>
    decreases n,
{
    if n < 128 {
        seq![n as u8]
    } else {
        seq![(n % 128 + 128) as u8] + varint(n / 128)
    }
}

/// Whether a column of this kind can hold `v`.
pub open spec fn fits_kind(v: ValueView, kind: ColumnKind) -> bool {
    match v {
        ValueView::UInt(n) => is_unsigned(kind) && n < pow256(width(kind)),
        ValueView::Int(n) => is_signed(kind) && -(pow256(width(kind)) as int) <= 2 * n < pow256(
            width(kind),
        ),
        ValueView::Bool(_) => kind == ColumnKind::Bool,
        ValueView::Bytes(bytes) => kind == ColumnKind::String && bytes.len() <= u64::MAX,
        ValueView::Null => false,
    }
}

/// Whether `column` can hold `v`.
pub open spec fn fits(v: ValueView, column: Column) -> bool {
    if v is Null {
        column.nullable
    } else {
        fits_kind(v, column.kind)
    }
}

/// Whether `row` has one value for each column of `layout`, each of them one that its
/// column can hold.
pub open spec fn conforms(row: Seq<ValueView>, layout: Seq<Column>) -> bool {
    &&& row.len() == layout.len()
    &&& forall|i: int| 0 <= i < row.len() ==> fits(#[trigger] row[i], layout[i])
}

/// The bytes of a value that is not null, in a column of this kind.
pub open spec fn encoded_value(v: ValueView, kind: ColumnKind) -> Seq<u8> {
    match v {
        ValueView::UInt(n) => le_bytes(n as nat, width(kind)),
        ValueView::Int(n) => le_bytes(
            if n >= 0 {
                n as nat
            } else {
                (n + pow256(width(kind))) as nat
            },
            width(kind),
        ),
        ValueView::Bool(b) => seq![if b { 1u8 } else { 0u8 }],
        ValueView::Bytes(bytes) => varint(bytes.len()) + bytes,
        ValueView::Null => Seq::empty(),
    }
}

/// The bytes of a value in its column: where the column may hold nothing, one byte that
/// is 1 for nothing and 0 before a value; then the value.
pub open spec fn encoded_cell(v: ValueView, column: Column) -> Seq<u8> {
    if column.nullable {
        if v is Null {
            seq![1u8]
        } else {
            seq![0u8] + encoded_value(v, column.kind)
        }
    } else {
        encoded_value(v, column.kind)
    }
}

/// The bytes of a row: its values one after the other, from column `c` on.
pub open spec fn encoded_row_from(row: Seq<ValueView>, layout: Seq<Column>, c: int) -> Seq<u8>
    decreases row.len() - c,
{
    if c < 0 || c >= row.len() {
        Seq::empty()
    } else {
        encoded_cell(row[c], layout[c]) + encoded_row_from(row, layout, c + 1)
    }
}

/// The bytes of a row.
pub open spec fn encoded_row(row: Seq<ValueView>, layout: Seq<Column>) -> Seq<u8> {
    encoded_row_from(row, layout, 0)
}

/// The bytes of a result: its rows one after the other, with nothing between them and
/// nothing before or behind.
pub open spec fn encoded_rows(rows: Seq<Seq<ValueView>>, layout: Seq<Column>) -> Seq<u8>
    decreases rows.len(),
{
    if rows.len() == 0 {
        Seq::empty()
    } else {
        encoded_row(rows[0], layout) + encoded_rows(rows.skip(1), layout)
    }
}

/// What reading at a position gives: a value and the position behind it, or that the
/// bytes end before the value does, or that the bytes are no value.
pub enum Parse<T> {
    Ready(T, int),
    More,
    Fail(DecodeError),
}

/// The least value that a length cannot have when `k` of its bytes were read before.
pub open spec fn varint_limit(k: nat) -> nat
    decreases 9 - k,
{
    if k >= 9 {
        2
    } else {
        128 * varint_limit(k + 1)
    }
}

/// Reads a length at `i`, of which `k` bytes were read before. A length has at most ten
/// bytes and fits in 64 bits.
pub open spec fn parsed_varint(b: Seq<u8>, i: int, k: nat) -> Parse<nat>
    decreases 10 - k,
{
    if i < 0 || i >= b.len() {
        Parse::More
    } else if k >= 9 {
        if b[i] > 1 {
            Parse::Fail(DecodeError::MalformedLength)
        } else {
            Parse::Ready(b[i] as nat, i + 1)
        }
    } else if b[i] < 128 {
        Parse::Ready(b[i] as nat, i + 1)
    } else {
        match parsed_varint(b, i + 1, k + 1) {
            Parse::Ready(rest, j) => Parse::Ready((b[i] - 128 + 128 * rest) as nat, j),
            Parse::More => Parse::More,
            Parse::Fail(e) => Parse::Fail(e),
        }
    }
}

/// The value of kind `kind` that the number `u` stands for.
pub open spec fn number(kind: ColumnKind, u: nat) -> ValueView {
    if is_signed(kind) {
        if 2 * u >= pow256(width(kind)) {
            ValueView::Int((u - pow256(width(kind))) as i64)
        } else {
            ValueView::Int(u as i64)
        }
    } else {
        ValueView::UInt(u as u64)
    }
}

/// Reads a value that is not null, of kind `kind`, at `i`.
pub open spec fn parsed_value(kind: ColumnKind, b: Seq<u8>, i: int) -> Parse<ValueView> {
    if i < 0 || i > b.len() {
        Parse::More
    } else if kind == ColumnKind::Bool {
        if i >= b.len() {
            Parse::More
        } else if b[i] == 0 {
            Parse::Ready(ValueView::Bool(false), i + 1)
        } else if b[i] == 1 {
            Parse::Ready(ValueView::Bool(true), i + 1)
        } else {
            Parse::Fail(DecodeError::InvalidDiscriminant)
        }
    } else if kind == ColumnKind::String {
        match parsed_varint(b, i, 0) {
            Parse::Ready(n, j) => if j + n > b.len() {
                Parse::More
            } else {
                Parse::Ready(ValueView::Bytes(b.subrange(j, j + n)), j + n)
            },
            Parse::More => Parse::More,
            Parse::Fail(e) => Parse::Fail(e),
        }
    } else if i + width(kind) > b.len() {
        Parse::More
    } else {
        Parse::Ready(number(kind, le_value(b.subrange(i, i + width(kind)))), i + width(kind))
    }
}

/// Reads the value of `column` at `i`.
pub open spec fn parsed_cell(column: Column, b: Seq<u8>, i: int) -> Parse<ValueView> {
    if !column.nullable {
        parsed_value(column.kind, b, i)
    } else if i < 0 || i >= b.len() {
        Parse::More
    } else if b[i] == 1 {
        Parse::Ready(ValueView::Null, i + 1)
    } else if b[i] == 0 {
        parsed_value(column.kind, b, i + 1)
    } else {
        Parse::Fail(DecodeError::InvalidDiscriminant)
    }
}

/// Reads the values of the columns from `c` on at `i`.
pub open spec fn parsed_row_from(layout: Seq<Column>, c: int, b: Seq<u8>, i: int) -> Parse<
    Seq<ValueView>,
>
    decreases layout.len() - c,
{
    if c < 0 || c >= layout.len() {
        Parse::Ready(Seq::empty(), i)
    } else {
        match parsed_cell(layout[c], b, i) {
            Parse::Ready(v, j) => match parsed_row_from(layout, c + 1, b, j) {
                Parse::Ready(rest, k) => Parse::Ready(seq![v] + rest, k),
                Parse::More => Parse::More,
                Parse::Fail(e) => Parse::Fail(e),
            },
            Parse::More => Parse::More,
            Parse::Fail(e) => Parse::Fail(e),
        }
    }
}

/// Reads one row at `i`.
pub open spec fn parsed_row(layout: Seq<Column>, b: Seq<u8>, i: int) -> Parse<Seq<ValueView>> {
    parsed_row_from(layout, 0, b, i)
}

/// `r` with `row` before its rows.
pub open spec fn with_row(row: Seq<ValueView>, r: Result<Seq<Seq<ValueView>>, DecodeError>) -> Result<
    Seq<Seq<ValueView>>,
    DecodeError,
> {
    match r {
        Ok(rows) => Ok(seq![row] + rows),
        Err(e) => Err(e),
    }
}

/// The rows that `b` holds from `i` on: read one after the other until the bytes end. A
/// row that the end of the bytes cuts short is an error, as is one that is no row.
pub open spec fn rows_from(layout: Seq<Column>, b: Seq<u8>, i: int) -> Result<
    Seq<Seq<ValueView>>,
    DecodeError,
>
    decreases b.len() - i,
{
    if i < 0 || i >= b.len() {
        Ok(Seq::empty())
    } else {
        match parsed_row(layout, b, i) {
            Parse::Ready(row, j) => if j <= i || j > b.len() {
                Err(DecodeError::Truncated)
            } else {
                with_row(row, rows_from(layout, b, j))
            },
            Parse::More => Err(DecodeError::Truncated),
            Parse::Fail(e) => Err(e),
        }
    }
}

/// The rows that `b` holds.
pub open spec fn decoded_rows(layout: Seq<Column>, b: Seq<u8>) -> Result<
    Seq<Seq<ValueView>>,
    DecodeError,
> {
    rows_from(layout, b, 0)
}

} // verus!
