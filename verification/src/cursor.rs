use vstd::prelude::*;
use crate::decode::{copy_range, decode_row, Decoded};
use crate::encode::write_all;
use crate::error::{DecodeError, Error};
use crate::http::{is_success, status_is_success};
use crate::request::Request;
use crate::rowbinary::{parsed_row, row_view, Column, Parse, Value, ValueView};
use crate::window::{lemma_row_in_window, lemma_row_is_stable};

verus! {

/// What a cursor gives when it is asked for the next row.
#[derive(Debug, Clone, PartialEq, Eq)]
pub enum Fetched {
    /// The next row.
    Row(Vec<Value>),
    /// The bytes at hand do not hold a whole row, and more may come.
    Pending,
    /// The stream ended behind the last row.
    End,
}

/// What a cursor holds: the layout of its rows, the bytes that came and are not yet
/// read, and how far the response has come.
pub struct CursorView {
    pub layout: Seq<Column>,
    pub pending: Seq<u8>,
    /// A status of success came.
    pub responded: bool,
    /// The stream has ended.
    pub ended: bool,
    /// The reason that came with a status of failure.
    pub rejected: Option<Seq<char>>,
    /// The error that stopped decoding.
    pub failed: Option<DecodeError>,
}

/// What asking for the next row leads to.
pub enum Outcome {
    Rejected(Seq<char>),
    Failed(DecodeError),
    Row(Seq<ValueView>, int),
    Pending,
    End,
}

impl CursorView {
    /// What asking for the next row leads to: the server's rejection, if there was one;
    /// the error that stopped decoding, once and for ever; else the row that the bytes at
    /// hand hold whole; else the end where the stream ended behind a row, an error where
    /// it ended inside one, and a wait where it did not end yet.
    pub open spec fn outcome(self) -> Outcome {
        if self.rejected is Some {
            Outcome::Rejected(self.rejected->Some_0)
        } else if self.failed is Some {
            Outcome::Failed(self.failed->Some_0)
        } else if !self.responded {
            Outcome::Pending
        } else if self.pending.len() == 0 {
            if self.ended {
                Outcome::End
            } else {
                Outcome::Pending
            }
        } else {
            match parsed_row(self.layout, self.pending, 0) {
                Parse::Ready(row, used) => if used <= 0 {
                    Outcome::Failed(DecodeError::Truncated)
                } else {
                    Outcome::Row(row, used)
                },
                Parse::More => if self.ended {
                    Outcome::Failed(DecodeError::Truncated)
                } else {
                    Outcome::Pending
                },
                Parse::Fail(e) => Outcome::Failed(e),
            }
        }
    }
}

/// A cursor over the rows of one response. It is made with the request that asks for the
/// rows; the response is handed to it piece by piece.
#[derive(Debug)]
pub struct RowCursor {
    request: Request,
    layout: Vec<Column>,
    buffer: Vec<u8>,
    pos: usize,
    responded: bool,
    ended: bool,
    rejected: Option<String>,
    failed: Option<DecodeError>,
}

impl View for RowCursor {
    type V = CursorView;

    closed spec fn view(&self) -> CursorView {
        CursorView {
            layout: self.layout@,
            pending: self.buffer@.skip(self.pos as int),
            responded: self.responded,
            ended: self.ended,
            rejected: match self.rejected {
                Some(reason) => Some(reason@),
                None => None,
            },
            failed: self.failed,
        }
    }
}

impl RowCursor {
    #[verifier::type_invariant]
    spec fn within(self) -> bool {
        self.pos <= self.buffer@.len()
    }

    /// The request that this cursor was made with.
    pub closed spec fn spec_request(&self) -> Request {
        self.request
    }

    /// A cursor for the rows that `request` asks for, before any response.
    pub fn new(request: Request, layout: Vec<Column>) -> (c: RowCursor)
        ensures
            c.spec_request() == request,
            c@ == (CursorView {
                layout: layout@,
                pending: Seq::empty(),
                responded: false,
                ended: false,
                rejected: None,
                failed: None,
            }),
    {
        let c = RowCursor {
            request,
            layout,
            buffer: Vec::new(),
            pos: 0,
            responded: false,
            ended: false,
            rejected: None,
            failed: None,
        };
        proof {
            assert(c.buffer@.skip(0) =~= Seq::empty());
        }
        c
    }

    /// The request to send.
    pub fn request(&self) -> (r: &Request)
        ensures
            *r == self.spec_request(),
    {
        &self.request
    }

    /// Takes the status of the response and the reason that came with it: a status that
    /// is no success rejects every row that is asked for, with this reason.
    pub fn respond(&mut self, status: u16, reason: &str)
        ensures
            final(self).spec_request() == old(self).spec_request(),
            is_success(status) ==> final(self)@ == (CursorView { responded: true, ..old(self)@ }),
            !is_success(status) ==> final(self)@ == (CursorView {
                rejected: Some(reason@),
                ..old(self)@
            }),
    {
        proof {
            use_type_invariant(&*self);
        }
        if status_is_success(status) {
            self.responded = true;
        } else {
            self.rejected = Some(reason.to_owned());
        }
    }

    /// Takes the next bytes of the body.
    pub fn feed(&mut self, bytes: &[u8])
        ensures
            final(self).spec_request() == old(self).spec_request(),
            final(self)@ == (CursorView { pending: old(self)@.pending + bytes@, ..old(self)@ }),
    {
        proof {
            use_type_invariant(&*self);
        }
        let mut fresh = copy_range(self.buffer.as_slice(), self.pos, self.buffer.len());
        proof {
            assert(fresh@ =~= self.buffer@.skip(self.pos as int));
        }
        write_all(&mut fresh, bytes);
        proof {
            assert(fresh@.skip(0) =~= fresh@);
        }
        self.pos = 0;
        self.buffer = fresh;
    }

    /// Takes the end of the body.
    pub fn end(&mut self)
        ensures
            final(self).spec_request() == old(self).spec_request(),
            final(self)@ == (CursorView { ended: true, ..old(self)@ }),
    {
        proof {
            use_type_invariant(&*self);
        }
        self.ended = true;
    }

    /// Gives the next row, if the bytes at hand hold it whole, and steps behind it.
    /// Nothing is given of a row that is not whole. An error in the bytes stops the cursor
    /// for good: every later call gives the same error.
    pub fn next(&mut self) -> (r: Result<Fetched, Error>)
        ensures
            final(self).spec_request() == old(self).spec_request(),
            match old(self)@.outcome() {
                Outcome::Rejected(reason) => r matches Err(Error::BadResponse(text)) && text@
                    == reason && final(self)@ == old(self)@,
                Outcome::Failed(e) => r == Err::<Fetched, Error>(Error::Decode(e)) && final(self)@
                    == (CursorView { failed: Some(e), ..old(self)@ }),
                Outcome::Row(row, used) => r matches Ok(Fetched::Row(values)) && row_view(values@)
                    == row && 0 < used <= old(self)@.pending.len() && final(self)@ == (CursorView {
                    pending: old(self)@.pending.skip(used),
                    ..old(self)@
                }),
                Outcome::Pending => r == Ok::<Fetched, Error>(Fetched::Pending) && final(self)@
                    == old(self)@,
                Outcome::End => r == Ok::<Fetched, Error>(Fetched::End) && final(self)@ == old(
                    self,
                )@,
            },
    {
        proof {
            use_type_invariant(&*self);
        }
        if let Some(reason) = &self.rejected {
            return Err(Error::BadResponse(reason.clone()));
        }
        if let Some(e) = self.failed {
            return Err(Error::Decode(e));
        }
        if !self.responded {
            return Ok(Fetched::Pending);
        }
        if self.pos == self.buffer.len() {
            return if self.ended {
                Ok(Fetched::End)
            } else {
                Ok(Fetched::Pending)
            };
        }
        proof {
            lemma_row_in_window(self.layout@, 0, self.buffer@, self.pos as int, 0);
        }
        match decode_row(&self.layout, self.buffer.as_slice(), self.pos) {
            Decoded::Ready(row, next) => {
                if next <= self.pos {
                    self.failed = Some(DecodeError::Truncated);
                    return Err(Error::Decode(DecodeError::Truncated));
                }
                proof {
                    assert(self.buffer@.skip(next as int) =~= self.buffer@.skip(
                        self.pos as int,
                    ).skip(next - self.pos));
                }
                self.pos = next;
                Ok(Fetched::Row(row))
            },
            Decoded::More => {
                if self.ended {
                    self.failed = Some(DecodeError::Truncated);
                    Err(Error::Decode(DecodeError::Truncated))
                } else {
                    Ok(Fetched::Pending)
                }
            },
            Decoded::Fail(e) => {
                self.failed = Some(e);
                Err(Error::Decode(e))
            },
        }
    }
}

/// What a cursor gave does not depend on where the body was cut: a row that the bytes at
/// hand hold whole, and an error in them, are the same when more bytes have come.
pub proof fn lemma_outcome_is_stable(v: CursorView, more: Seq<u8>)
    requires
        !v.ended,
        v.outcome() is Row || v.outcome() is Failed,
    ensures
        (CursorView { pending: v.pending + more, ..v }).outcome() == v.outcome(),
{
    if v.rejected is None && v.failed is None && v.responded && v.pending.len() > 0 {
        if !(parsed_row(v.layout, v.pending, 0) is More) {
            lemma_row_is_stable(v.layout, 0, v.pending, more, 0);
        }
    }
}

} // verus!
