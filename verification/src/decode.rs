use vstd::prelude::*;
use crate::error::DecodeError;
use crate::rowbinary::{
    is_signed, is_unsigned, le_value, number, parsed_cell, parsed_row, parsed_row_from, parsed_value,
    parsed_varint, pow256, row_view, varint_limit, width, Column, ColumnKind, Parse, Value, ValueView,
};

verus! {

/// What reading at a position gave: a value and the position behind it, or that more
/// bytes are needed, or that the bytes are no value.
#[derive(Debug, Clone, PartialEq, Eq)]
pub enum Decoded<T> {
    Ready(T, usize),
    More,
    Fail(DecodeError),
}

/// The powers of 256 that the widths of numbers need.
pub proof fn lemma_pow256_values()
    ensures
        pow256(0) == 1,
        pow256(1) == 0x100,
        pow256(2) == 0x1_0000,
        pow256(3) == 0x100_0000,
        pow256(4) == 0x1_0000_0000,
        pow256(5) == 0x100_0000_0000,
        pow256(6) == 0x1_0000_0000_0000,
        pow256(7) == 0x100_0000_0000_0000,
        pow256(8) == 0x1_0000_0000_0000_0000,
{
    reveal_with_fuel(pow256, 10);
}

/// The limits of a length, by the number of bytes read before.
pub proof fn lemma_varint_limits()
    ensures
        varint_limit(9) == 2,
        varint_limit(8) == 0x100,
        varint_limit(7) == 0x8000,
        varint_limit(6) == 0x40_0000,
        varint_limit(5) == 0x2000_0000,
        varint_limit(4) == 0x10_0000_0000,
        varint_limit(3) == 0x800_0000_0000,
        varint_limit(2) == 0x4_0000_0000_0000,
        varint_limit(1) == 0x200_0000_0000_0000,
        varint_limit(0) == 0x1_0000_0000_0000_0000,
{
    reveal_with_fuel(varint_limit, 11);
}

/// A number of `n` bytes is below 256 to the power of `n`.
pub proof fn lemma_le_value_bound(b: Seq<u8>)
    ensures
        le_value(b) < pow256(b.len()),
    decreases b.len(),
{
    if b.len() > 0 {
        lemma_le_value_bound(b.skip(1));
        assert(pow256(b.len()) == 256 * pow256((b.len() - 1) as nat));
        assert(b[0] as nat + 256 * le_value(b.skip(1)) < 256 * pow256((b.len() - 1) as nat))
            by (nonlinear_arith)
            requires
                b[0] < 256,
                le_value(b.skip(1)) < pow256((b.len() - 1) as nat),
        ;
    }
}

/// Reads the number that the `w` bytes at `i` hold, the lowest first.
pub fn read_le(b: &[u8], i: usize, w: usize) -> (r: u64)
    requires
        w <= 8,
        i + w <= b@.len(),
    ensures
        r == le_value(b@.subrange(i as int, i + w)),
        r < pow256(w as nat),
{
    let n = b.len();
    let mut acc: u64 = 0;
    let mut j: usize = w;
    proof {
        lemma_pow256_values();
        assert(b@.subrange(i + w, i + w) =~= Seq::<u8>::empty());
    }
    while j > 0
        invariant
            j <= w <= 8,
            n == b@.len(),
            i + w <= b@.len(),
            acc == le_value(b@.subrange(i + j, i + w)),
            acc < pow256((w - j) as nat),
        decreases j,
    {
        let ghost tail = b@.subrange(i + j, i + w);
        let ghost whole = b@.subrange(i + j - 1, i + w);
        proof {
            lemma_pow256_values();
            assert(whole.skip(1) =~= tail);
            assert(whole[0] == b@[i + j - 1]);
            lemma_le_value_bound(whole);
            assert(pow256((w - j + 1) as nat) <= pow256(8)) by {
                lemma_pow256_values();
            }
        }
        j -= 1;
        acc = acc * 256 + b[i + j] as u64;
    }
    acc
}

/// Reads a length at `i`, of which `k` bytes were read before.
pub fn read_varint(b: &[u8], i: usize, k: u8) -> (r: Decoded<u64>)
    requires
        k <= 9,
        i <= b@.len(),
    ensures
        match parsed_varint(b@, i as int, k as nat) {
            Parse::Ready(n, j) => r == Decoded::Ready(n as u64, j as usize) && n < varint_limit(
                k as nat,
            ) && i < j <= b@.len(),
            Parse::More => r is More,
            Parse::Fail(e) => r == Decoded::<u64>::Fail(e),
        },
    decreases 9 - k,
{
    proof {
        lemma_varint_limits();
    }
    if i >= b.len() {
        return Decoded::More;
    }
    let byte = b[i];
    if k >= 9 {
        if byte > 1 {
            Decoded::Fail(DecodeError::MalformedLength)
        } else {
            Decoded::Ready(byte as u64, i + 1)
        }
    } else if byte < 128 {
        proof {
            assert(varint_limit(k as nat) == 128 * varint_limit((k + 1) as nat));
            assert(varint_limit((k + 1) as nat) >= 2);
        }
        Decoded::Ready(byte as u64, i + 1)
    } else {
        match read_varint(b, i + 1, k + 1) {
            Decoded::Ready(rest, j) => {
                proof {
                    assert(varint_limit(k as nat) == 128 * varint_limit((k + 1) as nat));
                    assert(varint_limit(k as nat) <= 0x1_0000_0000_0000_0000);
                }
                Decoded::Ready((byte - 128) as u64 + 128 * rest, j)
            },
            Decoded::More => Decoded::More,
            Decoded::Fail(e) => Decoded::Fail(e),
        }
    }
}

/// The bytes of `b` from `from` up to `to`.
pub fn copy_range(b: &[u8], from: usize, to: usize) -> (out: Vec<u8>)
    requires
        from <= to <= b@.len(),
    ensures
        out@ == b@.subrange(from as int, to as int),
{
    let mut out: Vec<u8> = Vec::new();
    let mut i: usize = from;
    while i < to
        invariant
            from <= i <= to <= b@.len(),
            out@ == b@.subrange(from as int, i as int),
        decreases to - i,
    {
        out.push(b[i]);
        proof {
            assert(out@ =~= b@.subrange(from as int, i + 1));
        }
        i += 1;
    }
    out
}

/// The number of bytes of a number of this kind.
pub fn kind_width(kind: ColumnKind) -> (w: usize)
    ensures
        w == width(kind),
{
    match kind {
        ColumnKind::UInt8 | ColumnKind::Int8 => 1,
        ColumnKind::UInt16 | ColumnKind::Int16 => 2,
        ColumnKind::UInt32 | ColumnKind::Int32 => 4,
        ColumnKind::UInt64 | ColumnKind::Int64 => 8,
        ColumnKind::Bool | ColumnKind::String => 0,
    }
}

/// Half of 256 to the power of the kind's width: the least number that stands for a
/// value below zero.
fn sign_bound(kind: ColumnKind) -> (h: u64)
    requires
        is_signed(kind),
    ensures
        2 * h == pow256(width(kind)),
{
    proof {
        lemma_pow256_values();
    }
    match kind {
        ColumnKind::Int8 => 0x80,
        ColumnKind::Int16 => 0x8000,
        ColumnKind::Int32 => 0x8000_0000,
        _ => 0x8000_0000_0000_0000,
    }
}

/// The value of kind `kind` that the number `u` stands for.
fn to_number(kind: ColumnKind, u: u64) -> (v: Value)
    requires
        is_signed(kind) || is_unsigned(kind),
        u < pow256(width(kind)),
    ensures
        v@ == number(kind, u as nat),
{
    proof {
        lemma_pow256_values();
    }
    match kind {
        ColumnKind::Int8 | ColumnKind::Int16 | ColumnKind::Int32 | ColumnKind::Int64 => {
            let half = sign_bound(kind);
            if u >= half {
                let low = (u - half) as i64;
                Value::Int(low - (half - 1) as i64 - 1)
            } else {
                Value::Int(u as i64)
            }
        },
        _ => Value::UInt(u),
    }
}

/// Reads a value that is not null, of kind `kind`, at `i`.
pub fn decode_value(kind: ColumnKind, b: &[u8], i: usize) -> (r: Decoded<Value>)
    requires
        i <= b@.len(),
    ensures
        match parsed_value(kind, b@, i as int) {
            Parse::Ready(v, j) => r is Ready && r->Ready_0@ == v && r->Ready_1 == j && i < j
                <= b@.len(),
            Parse::More => r is More,
            Parse::Fail(e) => r == Decoded::<Value>::Fail(e),
        },
{
    match kind {
        ColumnKind::Bool => {
            if i >= b.len() {
                Decoded::More
            } else if b[i] == 0 {
                Decoded::Ready(Value::Bool(false), i + 1)
            } else if b[i] == 1 {
                Decoded::Ready(Value::Bool(true), i + 1)
            } else {
                Decoded::Fail(DecodeError::InvalidDiscriminant)
            }
        },
        ColumnKind::String => {
            match read_varint(b, i, 0) {
                Decoded::Ready(n, j) => {
                    proof {
                        lemma_varint_limits();
                    }
                    if n > (b.len() - j) as u64 {
                        Decoded::More
                    } else {
                        let end = j + n as usize;
                        Decoded::Ready(Value::Bytes(copy_range(b, j, end)), end)
                    }
                },
                Decoded::More => Decoded::More,
                Decoded::Fail(e) => Decoded::Fail(e),
            }
        },
        _ => {
            let w = kind_width(kind);
            if w > b.len() - i {
                Decoded::More
            } else {
                let u = read_le(b, i, w);
                Decoded::Ready(to_number(kind, u), i + w)
            }
        },
    }
}

/// Reads the value of `column` at `i`.
pub fn decode_cell(column: &Column, b: &[u8], i: usize) -> (r: Decoded<Value>)
    requires
        i <= b@.len(),
    ensures
        match parsed_cell(*column, b@, i as int) {
            Parse::Ready(v, j) => r is Ready && r->Ready_0@ == v && r->Ready_1 == j && i < j
                <= b@.len(),
            Parse::More => r is More,
            Parse::Fail(e) => r == Decoded::<Value>::Fail(e),
        },
{
    if !column.nullable {
        decode_value(column.kind, b, i)
    } else if i >= b.len() {
        Decoded::More
    } else if b[i] == 1 {
        Decoded::Ready(Value::Null, i + 1)
    } else if b[i] == 0 {
        decode_value(column.kind, b, i + 1)
    } else {
        Decoded::Fail(DecodeError::InvalidDiscriminant)
    }
}

/// `r` with `p` before its values.
pub open spec fn with_values(p: Seq<ValueView>, r: Parse<Seq<ValueView>>) -> Parse<Seq<ValueView>> {
    match r {
        Parse::Ready(rest, j) => Parse::Ready(p + rest, j),
        Parse::More => Parse::More,
        Parse::Fail(e) => Parse::Fail(e),
    }
}

/// Reads one row of `layout` at `i`: a value for each column, in order. Nothing is given
/// of a row that the bytes do not hold whole.
pub fn decode_row(layout: &Vec<Column>, b: &[u8], i: usize) -> (r: Decoded<Vec<Value>>)
    requires
        i <= b@.len(),
    ensures
        match parsed_row(layout@, b@, i as int) {
            Parse::Ready(row, j) => r is Ready && row_view(r->Ready_0@) == row && r->Ready_1 == j
                && i <= j <= b@.len() && (layout@.len() > 0 ==> i < j) && row.len()
                == layout@.len(),
            Parse::More => r is More,
            Parse::Fail(e) => r == Decoded::<Vec<Value>>::Fail(e),
        },
{
    let mut row: Vec<Value> = Vec::new();
    let mut pos: usize = i;
    let mut c: usize = 0;
    proof {
        assert(row_view(row@) =~= Seq::empty());
        lemma_values_none(parsed_row_from(layout@, 0, b@, i as int));
    }
    while c < layout.len()
        invariant
            c <= layout.len(),
            i <= pos <= b@.len(),
            c > 0 ==> i < pos,
            row@.len() == c,
            parsed_row(layout@, b@, i as int) == with_values(
                row_view(row@),
                parsed_row_from(layout@, c as int, b@, pos as int),
            ),
        decreases layout.len() - c,
    {
        let ghost before = row_view(row@);
        match decode_cell(&layout[c], b, pos) {
            Decoded::Ready(v, next) => {
                proof {
                    lemma_values_twice(
                        before,
                        seq![v@],
                        parsed_row_from(layout@, c + 1, b@, next as int),
                    );
                }
                row.push(v);
                proof {
                    assert(row_view(row@) =~= before + seq![v@]);
                }
                pos = next;
                c += 1;
            },
            Decoded::More => {
                return Decoded::More;
            },
            Decoded::Fail(e) => {
                return Decoded::Fail(e);
            },
        }
    }
    proof {
        assert(row_view(row@) + Seq::<ValueView>::empty() =~= row_view(row@));
    }
    Decoded::Ready(row, pos)
}

proof fn lemma_values_none(r: Parse<Seq<ValueView>>)
    ensures
        with_values(Seq::empty(), r) == r,
{
    if let Parse::Ready(rest, j) = r {
        assert(Seq::<ValueView>::empty() + rest =~= rest);
    }
}

proof fn lemma_values_twice(p: Seq<ValueView>, q: Seq<ValueView>, r: Parse<Seq<ValueView>>)
    ensures
        with_values(p, with_values(q, r)) == with_values(p + q, r),
{
    if let Parse::Ready(rest, j) = r {
        assert(p + (q + rest) =~= (p + q) + rest);
    }
}

} // verus!
