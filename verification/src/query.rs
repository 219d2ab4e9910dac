use vstd::prelude::*;
use crate::cursor::{CursorView, Fetched, RowCursor};
use crate::error::{DecodeError, Error};
use crate::http::{is_success, status_is_success};
use crate::materialize::{collect, BUFFER_SIZE};
use crate::request::{assemble, assembled, ClientConfig, ConfigView, Request, RequestView};
use crate::encode::all_conform;
use crate::roundtrip::lemma_decode_encoded;
use crate::rowbinary::{
    decoded_rows, encoded_rows, parsed_row, row_view, rows_view, Column, Parse, Value, ValueView,
};
use crate::sql::{joined, Bind, SqlBuilder, SqlView};

verus! {

/// What came back for a request: the status, the reason that came with it, and the
/// body, decompressed.
#[derive(Debug, Clone, PartialEq, Eq)]
pub struct Response {
    pub status: u16,
    pub reason: String,
    pub body: Vec<u8>,
}

impl Response {
    /// Whether the server took the request: nothing of the body is read. A status that
    /// is no success is an error that carries the server's reason, letter for letter.
    pub fn finish(&self) -> (r: Result<(), Error>)
        ensures
            is_success(self.status) ==> r is Ok,
            !is_success(self.status) ==> (r matches Err(Error::BadResponse(text)) && text@
                == self.reason@),
    {
        if status_is_success(self.status) {
            Ok(())
        } else {
            Err(Error::BadResponse(self.reason.clone()))
        }
    }
}

/// The names of the columns of `layout`, in order.
pub open spec fn names_of(layout: Seq<Column>) -> Seq<Seq<char>> {
    Seq::new(layout.len(), |i: int| layout[i].name@)
}

/// What a query holds: the configuration of its client and its template with the
/// arguments bound so far.
pub struct QueryView {
    pub client: ConfigView,
    pub sql: SqlView,
}

/// The template of a query that fetches rows of `layout`: the column list bound to
/// `?fields`, and the row format named behind the text.
pub open spec fn fetch_sql(sql: SqlView, layout: Seq<Column>) -> SqlView {
    SqlView {
        fields: Some(joined(names_of(layout))),
        suffix: sql.suffix + " FORMAT RowBinary"@,
        ..sql
    }
}

/// The request that a query makes, or the error that stops it before anything is sent:
/// a binding error where the text does not render, else a configuration error where the
/// client gives no valid request.
pub open spec fn request_for(client: ConfigView, sql: SqlView, read_only: bool) -> Result<
    RequestView,
    Error,
> {
    match sql.rendered() {
        Err(e) => Err(Error::Bind(e)),
        Ok(text) => match assembled(client, text, read_only) {
            Err(e) => Err(Error::Config(e)),
            Ok(request) => Ok(request),
        },
    }
}

/// The first row that `body` holds: `None` where it holds nothing at all.
pub open spec fn first_row(layout: Seq<Column>, body: Seq<u8>) -> Result<
    Option<Seq<ValueView>>,
    DecodeError,
> {
    if body.len() == 0 {
        Ok(None)
    } else {
        match parsed_row(layout, body, 0) {
            Parse::Ready(row, used) => if used <= 0 {
                Err(DecodeError::Truncated)
            } else {
                Ok(Some(row))
            },
            Parse::More => Err(DecodeError::Truncated),
            Parse::Fail(e) => Err(e),
        }
    }
}

/// A body that decodes as a whole starts with its first row, or is empty.
pub proof fn lemma_first_of_all(layout: Seq<Column>, body: Seq<u8>)
    requires
        decoded_rows(layout, body) is Ok,
    ensures
        decoded_rows(layout, body)->Ok_0.len() == 0 ==> first_row(layout, body) == Ok::<
            Option<Seq<ValueView>>,
            DecodeError,
        >(None),
        decoded_rows(layout, body)->Ok_0.len() > 0 ==> first_row(layout, body) == Ok::<
            Option<Seq<ValueView>>,
            DecodeError,
        >(Some(decoded_rows(layout, body)->Ok_0[0])),
{
}

/// Of rows that were encoded, the first comes first: their bytes start with the first of
/// them, and hold no row where there was none.
pub proof fn lemma_first_of_encoded(rows: Seq<Seq<ValueView>>, layout: Seq<Column>)
    requires
        layout.len() > 0,
        all_conform(rows, layout),
    ensures
        rows.len() == 0 ==> first_row(layout, encoded_rows(rows, layout)) == Ok::<
            Option<Seq<ValueView>>,
            DecodeError,
        >(None),
        rows.len() > 0 ==> first_row(layout, encoded_rows(rows, layout)) == Ok::<
            Option<Seq<ValueView>>,
            DecodeError,
        >(Some(rows[0])),
{
    lemma_decode_encoded(rows, layout);
    lemma_first_of_all(layout, encoded_rows(rows, layout));
}

/// A query whose text does not render has no request: the binding error is all there is,
/// whatever the client is configured with.
pub proof fn lemma_unrendered_query_has_no_request(
    client: ConfigView,
    sql: SqlView,
    read_only: bool,
)
    requires
        sql.rendered() is Err,
    ensures
        request_for(client, sql, read_only) == Err::<RequestView, Error>(
            Error::Bind(sql.rendered()->Err_0),
        ),
{
}

/// One query: a template, the arguments bound to it, and the client that it goes to.
#[derive(Debug, Clone)]
pub struct Query<'a> {
    client: &'a ClientConfig,
    sql: SqlBuilder,
}

impl<'a> View for Query<'a> {
    type V = QueryView;

    closed spec fn view(&self) -> QueryView {
        QueryView { client: self.client@, sql: self.sql@ }
    }
}

fn column_names(layout: &Vec<Column>) -> (names: Vec<String>)
    ensures
        Seq::new(names@.len(), |i: int| names@[i]@) == names_of(layout@),
{
    let mut names: Vec<String> = Vec::new();
    let mut i: usize = 0;
    while i < layout.len()
        invariant
            i <= layout.len(),
            names@.len() == i,
            forall|j: int| 0 <= j < i ==> (#[trigger] names@[j])@ == layout@[j].name@,
        decreases layout.len() - i,
    {
        names.push(layout[i].name.clone());
        i += 1;
    }
    proof {
        assert(Seq::new(names@.len(), |i: int| names@[i]@) =~= names_of(layout@));
    }
    names
}

fn copy_layout(layout: &Vec<Column>) -> (copy: Vec<Column>)
    ensures
        copy@ == layout@,
{
    let mut copy: Vec<Column> = Vec::new();
    let mut i: usize = 0;
    while i < layout.len()
        invariant
            i <= layout.len(),
            copy@ == layout@.take(i as int),
        decreases layout.len() - i,
    {
        let column = &layout[i];
        copy.push(Column { name: column.name.clone(), kind: column.kind, nullable: column.nullable });
        proof {
            assert(copy@ =~= layout@.take(i + 1));
        }
        i += 1;
    }
    proof {
        assert(layout@.take(layout.len() as int) =~= layout@);
    }
    copy
}

impl ClientConfig {
    /// A query of this client with the text `template`.
    pub fn query<'a>(&'a self, template: &str) -> (q: Query<'a>)
        ensures
            q@ == (QueryView {
                client: self@,
                sql: SqlView {
                    template: template@,
                    fields: None,
                    suffix: Seq::empty(),
                    args: Seq::empty(),
                },
            }),
    {
        Query::new(self, template)
    }
}

impl<'a> Query<'a> {
    /// A query of `client` with the text `template`, in which each `?` waits for an
    /// argument.
    pub fn new(client: &'a ClientConfig, template: &str) -> (q: Query<'a>)
        ensures
            q@ == (QueryView {
                client: client@,
                sql: SqlView {
                    template: template@,
                    fields: None,
                    suffix: Seq::empty(),
                    args: Seq::empty(),
                },
            }),
    {
        Query { client, sql: SqlBuilder::new(template) }
    }

    /// Binds `value` to the next `?` of the text, counted from the left. Nothing is
    /// looked at before the query is rendered.
    pub fn bind(self, value: Bind) -> (q: Query<'a>)
        ensures
            q@ == (QueryView {
                sql: SqlView { args: self@.sql.args.push(value), ..self@.sql },
                ..self@
            }),
    {
        let mut q = self;
        q.sql.bind_arg(value);
        q
    }

    /// Renders the query and puts its request together; nothing is sent. A query that
    /// does not only read always goes out as POST.
    pub fn do_execute(self, read_only: bool) -> (r: Result<Request, Error>)
        ensures
            match request_for(self@.client, self@.sql, read_only) {
                Ok(request) => r is Ok && r->Ok_0@ == request,
                Err(e) => r == Err::<Request, Error>(e),
            },
    {
        let text = match self.sql.finish() {
            Ok(text) => text,
            Err(e) => {
                return Err(Error::Bind(e));
            },
        };
        match assemble(self.client, text.as_str(), read_only) {
            Ok(request) => Ok(request),
            Err(e) => Err(Error::Config(e)),
        }
    }

    /// Runs a query that gives no rows, given the response to its request: succeeds where
    /// the query has a request and the status is a success. The body is not read.
    pub fn execute(self, response: &Response) -> (r: Result<(), Error>)
        ensures
            match request_for(self@.client, self@.sql, false) {
                Err(e) => r == Err::<(), Error>(e),
                Ok(_) => if is_success(response.status) {
                    r is Ok
                } else {
                    r matches Err(Error::BadResponse(text)) && text@ == response.reason@
                },
            },
    {
        match self.do_execute(false) {
            Err(e) => Err(e),
            Ok(_) => response.finish(),
        }
    }

    /// Prepares a query for rows of `layout`: binds the column list to `?fields`, names
    /// the row format behind the text, and gives a cursor that holds the request to send
    /// and waits for the response. A text that does not render fails here, at once.
    pub fn fetch(self, layout: &Vec<Column>) -> (r: Result<RowCursor, Error>)
        ensures
            match request_for(self@.client, fetch_sql(self@.sql, layout@), true) {
                Ok(request) => r is Ok && r->Ok_0.spec_request()@ == request && r->Ok_0@ == (
                CursorView {
                    layout: layout@,
                    pending: Seq::empty(),
                    responded: false,
                    ended: false,
                    rejected: None,
                    failed: None,
                }),
                Err(e) => r == Err::<RowCursor, Error>(e),
            },
    {
        let mut q = self;
        let names = column_names(layout);
        q.sql.bind_fields(&names);
        q.sql.append(" FORMAT RowBinary");
        match q.do_execute(true) {
            Ok(request) => Ok(RowCursor::new(request, copy_layout(layout))),
            Err(e) => Err(e),
        }
    }

    /// Gives the first row of the result, given the response: an error where there is no
    /// row at all. Rows behind the first are not read.
    pub fn fetch_one(self, layout: &Vec<Column>, response: &Response) -> (r: Result<
        Vec<Value>,
        Error,
    >)
        ensures
            match request_for(self@.client, fetch_sql(self@.sql, layout@), true) {
                Err(e) => r == Err::<Vec<Value>, Error>(e),
                Ok(_) => if !is_success(response.status) {
                    r matches Err(Error::BadResponse(text)) && text@ == response.reason@
                } else {
                    match first_row(layout@, response.body@) {
                        Ok(Some(row)) => r matches Ok(values) && row_view(values@) == row,
                        Ok(None) => r == Err::<Vec<Value>, Error>(Error::RowNotFound),
                        Err(e) => r == Err::<Vec<Value>, Error>(Error::Decode(e)),
                    }
                },
            },
    {
        match self.fetch_optional(layout, response) {
            Ok(Some(row)) => Ok(row),
            Ok(None) => Err(Error::RowNotFound),
            Err(e) => Err(e),
        }
    }

    /// Gives the first row of the result, given the response, or `None` where there is
    /// no row at all. Rows behind the first are not read.
    pub fn fetch_optional(self, layout: &Vec<Column>, response: &Response) -> (r: Result<
        Option<Vec<Value>>,
        Error,
    >)
        ensures
            match request_for(self@.client, fetch_sql(self@.sql, layout@), true) {
                Err(e) => r == Err::<Option<Vec<Value>>, Error>(e),
                Ok(_) => if !is_success(response.status) {
                    r matches Err(Error::BadResponse(text)) && text@ == response.reason@
                } else {
                    match first_row(layout@, response.body@) {
                        Ok(Some(row)) => r matches Ok(Some(values)) && row_view(values@) == row,
                        Ok(None) => r == Ok::<Option<Vec<Value>>, Error>(None),
                        Err(e) => r == Err::<Option<Vec<Value>>, Error>(Error::Decode(e)),
                    }
                },
            },
    {
        let mut cursor = match self.fetch(layout) {
            Ok(cursor) => cursor,
            Err(e) => {
                return Err(e);
            },
        };
        cursor.respond(response.status, response.reason.as_str());
        cursor.feed(response.body.as_slice());
        cursor.end();
        proof {
            assert(cursor@.pending =~= response.body@);
        }
        match cursor.next() {
            Ok(Fetched::Row(row)) => Ok(Some(row)),
            Ok(Fetched::End) => Ok(None),
            Ok(Fetched::Pending) => Ok(None),
            Err(e) => Err(e),
        }
    }

    /// Gives all rows of the result, given the response, in the order in which the body
    /// holds them. An error anywhere in the body is the result, and then no row is.
    pub fn fetch_all(self, layout: &Vec<Column>, response: &Response) -> (r: Result<
        Vec<Vec<Value>>,
        Error,
    >)
        ensures
            match request_for(self@.client, fetch_sql(self@.sql, layout@), true) {
                Err(e) => r == Err::<Vec<Vec<Value>>, Error>(e),
                Ok(_) => if !is_success(response.status) {
                    r matches Err(Error::BadResponse(text)) && text@ == response.reason@
                } else {
                    match decoded_rows(layout@, response.body@) {
                        Ok(rows) => r matches Ok(values) && rows_view(values@) == rows,
                        Err(e) => r == Err::<Vec<Vec<Value>>, Error>(Error::Decode(e)),
                    }
                },
            },
    {
        match self.fetch(layout) {
            Ok(_) => {},
            Err(e) => {
                return Err(e);
            },
        }
        match response.finish() {
            Ok(()) => {},
            Err(e) => {
                return Err(e);
            },
        }
        match collect(layout, response.body.as_slice(), BUFFER_SIZE) {
            Ok(rows) => Ok(rows),
            Err(e) => Err(Error::Decode(e)),
        }
    }
}

} // verus!
