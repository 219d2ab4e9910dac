use vstd::prelude::*;
use crate::decode::{decode_row, Decoded};
use crate::error::DecodeError;
use crate::rowbinary::{decoded_rows, row_view, rows_from, rows_view, Column, Value, ValueView};

verus! {

/// The number of rows after which a chunk is handed off.
pub const BUFFER_SIZE: usize = 20000;

/// Collects the rows of a result in the order of their arrival. Rows gather in a chunk;
/// a chunk that reaches the threshold is handed out whole, and comes back through
/// `accept` before the next row is pushed.
#[derive(Debug)]
pub struct Materializer {
    done: Vec<Vec<Value>>,
    chunk: Vec<Vec<Value>>,
    threshold: usize,
}

impl Materializer {
    /// The rows of the chunks that came back, in order.
    pub closed spec fn done(&self) -> Seq<Seq<ValueView>> {
        rows_view(self.done@)
    }

    /// The rows of the chunk that is being filled.
    pub closed spec fn pending(&self) -> Seq<Seq<ValueView>> {
        rows_view(self.chunk@)
    }

    /// The number of rows after which a chunk is handed out.
    pub closed spec fn threshold(&self) -> nat {
        self.threshold as nat
    }

    /// A materializer that holds no row.
    pub fn new(threshold: usize) -> (m: Materializer)
        ensures
            m.done() == Seq::<Seq<ValueView>>::empty(),
            m.pending() == Seq::<Seq<ValueView>>::empty(),
            m.threshold() == threshold,
    {
        let m = Materializer { done: Vec::new(), chunk: Vec::new(), threshold };
        proof {
            assert(rows_view(m.done@) =~= Seq::empty());
            assert(rows_view(m.chunk@) =~= Seq::empty());
        }
        m
    }

    /// Takes the next row. Where the chunk reaches the threshold with it, the whole
    /// chunk is handed out and a new one begins; else the row waits in the chunk.
    pub fn push(&mut self, row: Vec<Value>) -> (handoff: Option<Vec<Vec<Value>>>)
        ensures
            final(self).done() == old(self).done(),
            final(self).threshold() == old(self).threshold(),
            old(self).pending().len() + 1 >= old(self).threshold() ==> handoff is Some
                && rows_view(handoff->Some_0@) == old(self).pending().push(row_view(row@))
                && final(self).pending() == Seq::<Seq<ValueView>>::empty(),
            old(self).pending().len() + 1 < old(self).threshold() ==> handoff is None
                && final(self).pending() == old(self).pending().push(row_view(row@)),
    {
        let ghost before = rows_view(self.chunk@);
        self.chunk.push(row);
        proof {
            assert(rows_view(self.chunk@) =~= before.push(row_view(row@)));
        }
        if self.chunk.len() >= self.threshold {
            let chunk = self.chunk.split_off(0);
            proof {
                assert(rows_view(self.chunk@) =~= Seq::empty());
                assert(chunk@ =~= old(self).chunk@.push(row));
            }
            Some(chunk)
        } else {
            None
        }
    }

    /// Takes back a chunk that was handed out: its rows come behind those of the chunks
    /// that came back before.
    pub fn accept(&mut self, chunk: Vec<Vec<Value>>)
        ensures
            final(self).done() == old(self).done() + rows_view(chunk@),
            final(self).pending() == old(self).pending(),
            final(self).threshold() == old(self).threshold(),
    {
        let mut rows = chunk;
        self.done.append(&mut rows);
        proof {
            assert(rows_view(self.done@) =~= rows_view(old(self).done@) + rows_view(chunk@));
        }
    }

    /// All rows, in the order in which they were pushed: those of the chunks that came
    /// back, then those that wait in the last chunk.
    pub fn finish(self) -> (rows: Vec<Vec<Value>>)
        ensures
            rows_view(rows@) == self.done() + self.pending(),
    {
        let mut rows = self.done;
        let mut chunk = self.chunk;
        rows.append(&mut chunk);
        proof {
            assert(rows_view(rows@) =~= rows_view(self.done@) + rows_view(self.chunk@));
        }
        rows
    }
}

/// `r` with `p` before its rows.
pub open spec fn with_rows(
    p: Seq<Seq<ValueView>>,
    r: Result<Seq<Seq<ValueView>>, DecodeError>,
) -> Result<Seq<Seq<ValueView>>, DecodeError> {
    match r {
        Ok(rows) => Ok(p + rows),
        Err(e) => Err(e),
    }
}

/// Reads all rows of `body`, through chunks of `threshold` rows: the rows that `body`
/// holds, in their order, whatever the threshold; or the first error, and then no row.
pub fn collect(layout: &Vec<Column>, body: &[u8], threshold: usize) -> (r: Result<
    Vec<Vec<Value>>,
    DecodeError,
>)
    ensures
        match decoded_rows(layout@, body@) {
            Ok(rows) => r is Ok && rows_view(r->Ok_0@) == rows,
            Err(e) => r == Err::<Vec<Vec<Value>>, DecodeError>(e),
        },
{
    let mut m = Materializer::new(threshold);
    let n = body.len();
    let mut pos: usize = 0;
    proof {
        lemma_rows_none(rows_from(layout@, body@, 0));
        assert(m.done() + m.pending() =~= Seq::empty());
    }
    while pos < n
        invariant
            n == body@.len(),
            pos <= n,
            m.threshold() == threshold,
            decoded_rows(layout@, body@) == with_rows(
                m.done() + m.pending(),
                rows_from(layout@, body@, pos as int),
            ),
        decreases n - pos,
    {
        let ghost before = m.done() + m.pending();
        match decode_row(layout, body, pos) {
            Decoded::Ready(row, next) => {
                if next <= pos {
                    return Err(DecodeError::Truncated);
                }
                proof {
                    lemma_rows_twice(
                        before,
                        seq![row_view(row@)],
                        rows_from(layout@, body@, next as int),
                    );
                }
                match m.push(row) {
                    Some(chunk) => {
                        m.accept(chunk);
                    },
                    None => {},
                }
                proof {
                    assert(m.done() + m.pending() =~= before + seq![row_view(row@)]);
                }
                pos = next;
            },
            Decoded::More => {
                return Err(DecodeError::Truncated);
            },
            Decoded::Fail(e) => {
                return Err(e);
            },
        }
    }
    proof {
        assert(m.done() + m.pending() + Seq::<Seq<ValueView>>::empty() =~= m.done()
            + m.pending());
    }
    Ok(m.finish())
}

proof fn lemma_rows_none(r: Result<Seq<Seq<ValueView>>, DecodeError>)
    ensures
        with_rows(Seq::empty(), r) == r,
{
    if let Ok(rows) = r {
        assert(Seq::<Seq<ValueView>>::empty() + rows =~= rows);
    }
}

proof fn lemma_rows_twice(
    p: Seq<Seq<ValueView>>,
    q: Seq<Seq<ValueView>>,
    r: Result<Seq<Seq<ValueView>>, DecodeError>,
)
    ensures
        with_rows(p, with_rows(q, r)) == with_rows(p + q, r),
{
    if let Ok(rows) = r {
        assert(p + (q + rows) =~= (p + q) + rows);
    }
}

} // verus!
