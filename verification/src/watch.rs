use vstd::prelude::*;
use crate::decode::lemma_pow256_values;
use crate::encode::{all_conform, write_le};
use crate::mock::{provide, Handler, HandlerView};
use crate::rowbinary::{
    encoded_row, encoded_row_from, encoded_rows, le_bytes, row_view, rows_view, Column, ColumnKind,
    Value, ValueView,
};
use crate::text::{from_chars, push_all, to_chars};

verus! {

/// Whether `part` stands somewhere in `text`.
pub open spec fn contains(text: Seq<char>, part: Seq<char>) -> bool {
    exists|i: int| 0 <= i && i + part.len() <= text.len() && #[trigger] text.subrange(
        i,
        i + part.len(),
    ) == part
}

/// The statement that creates the live view `name` over the query `sql`.
pub open spec fn live_view_text(name: Seq<char>, sql: Seq<char>) -> Seq<char> {
    "CREATE LIVE VIEW IF NOT EXISTS "@ + name + " WITH TIMEOUT AS "@ + sql
}

/// The query that watches the live view `name`: for its rows, or for its versions only.
pub open spec fn watch_text(name: Seq<char>, only_events: bool) -> Seq<char> {
    if only_events {
        "WATCH "@ + name + " EVENTS"@
    } else {
        "WATCH "@ + name
    }
}

/// The statement that must be run before the live view `name` is watched.
pub fn live_view_ddl(name: &str, sql: &str) -> (text: String)
    ensures
        text@ == live_view_text(name@, sql@),
{
    let mut out = to_chars("CREATE LIVE VIEW IF NOT EXISTS ");
    push_all(&mut out, &to_chars(name));
    push_all(&mut out, &to_chars(" WITH TIMEOUT AS "));
    push_all(&mut out, &to_chars(sql));
    from_chars(&out)
}

/// The query that watches the live view `name`.
pub fn watch_sql(name: &str, only_events: bool) -> (text: String)
    ensures
        text@ == watch_text(name@, only_events),
{
    let mut out = to_chars("WATCH ");
    push_all(&mut out, &to_chars(name));
    if only_events {
        push_all(&mut out, &to_chars(" EVENTS"));
    }
    from_chars(&out)
}

/// The statement that creates a live view says so: the marker stands in its text.
pub proof fn lemma_ddl_names_live_view(name: Seq<char>, sql: Seq<char>)
    ensures
        contains(live_view_text(name, sql), "CREATE LIVE VIEW"@),
{
    reveal_strlit("CREATE LIVE VIEW IF NOT EXISTS ");
    reveal_strlit("CREATE LIVE VIEW");
    let text = live_view_text(name, sql);
    let marker = "CREATE LIVE VIEW"@;
    assert(text.subrange(0int, 0int + marker.len()) =~= marker);
}

/// Whether `column` is the column that holds the version of an event.
pub open spec fn is_version_column(column: Column) -> bool {
    &&& column.name@ == "_version"@
    &&& column.kind == ColumnKind::UInt64
    &&& !column.nullable
}

/// The layout of the events of a watched query: the version, then the columns of the
/// row. With no columns the events are versions only.
pub fn event_layout(layout: Vec<Column>) -> (events: Vec<Column>)
    ensures
        events@.len() == layout@.len() + 1,
        is_version_column(events@[0]),
        events@.skip(1) == layout@,
{
    let mut events = layout;
    events.insert(
        0,
        Column { name: "_version".to_owned(), kind: ColumnKind::UInt64, nullable: false },
    );
    proof {
        assert(events@.skip(1) =~= layout@);
    }
    events
}

/// The event that says that the watched rows were `row` at `version`.
pub fn event_row(version: u64, row: Vec<Value>) -> (event: Vec<Value>)
    ensures
        row_view(event@) == seq![ValueView::UInt(version)] + row_view(row@),
{
    let mut event = row;
    event.insert(0, Value::UInt(version));
    proof {
        assert(row_view(event@) =~= seq![ValueView::UInt(version)] + row_view(row@));
    }
    event
}

/// The version and the row of an event; `None` where `event` is no event.
pub fn split_event(event: Vec<Value>) -> (r: Option<(u64, Vec<Value>)>)
    ensures
        match r {
            Some((version, row)) => row_view(event@) == seq![ValueView::UInt(version)] + row_view(
                row@,
            ),
            None => event@.len() == 0 || !(event@[0] is UInt),
        },
{
    let mut row = event;
    if row.len() == 0 {
        return None;
    }
    match row.remove(0) {
        Value::UInt(version) => {
            proof {
                assert(row_view(event@) =~= seq![ValueView::UInt(version)] + row_view(row@));
            }
            Some((version, row))
        },
        _ => None,
    }
}

/// A handler that answers the next watching query with `events`, each made by
/// `event_row`; `None` where an event does not conform to `events_layout`.
pub fn watch(events_layout: &Vec<Column>, events: &Vec<Vec<Value>>) -> (h: Option<Handler>)
    ensures
        h is Some == all_conform(rows_view(events@), events_layout@),
        h is Some ==> h->Some_0@ == HandlerView::Provide(
            encoded_rows(rows_view(events@), events_layout@),
        ),
{
    provide(events_layout, events)
}

/// The events that say no more than that the watched rows changed: one row for each
/// version, with the version alone.
pub open spec fn version_rows(versions: Seq<u64>) -> Seq<Seq<ValueView>> {
    Seq::new(versions.len(), |i: int| seq![ValueView::UInt(versions[i])])
}

/// The bytes of `versions`, eight for each, one version after the other.
pub open spec fn encoded_versions(versions: Seq<u64>) -> Seq<u8>
    decreases versions.len(),
{
    if versions.len() == 0 {
        Seq::empty()
    } else {
        le_bytes(versions[0] as nat, 8) + encoded_versions(versions.skip(1))
    }
}

/// The bytes of versions are the bytes of their events, in a layout of the version
/// column alone.
pub proof fn lemma_versions_are_events(versions: Seq<u64>, layout: Seq<Column>)
    requires
        layout.len() == 1,
        is_version_column(layout[0]),
    ensures
        encoded_rows(version_rows(versions), layout) == encoded_versions(versions),
        all_conform(version_rows(versions), layout),
    decreases versions.len(),
{
    let rows = version_rows(versions);
    lemma_pow256_values();
    if versions.len() > 0 {
        lemma_versions_are_events(versions.skip(1), layout);
        assert(rows.skip(1) =~= version_rows(versions.skip(1)));
        let row = rows[0];
        assert(encoded_row_from(row, layout, 1) =~= Seq::<u8>::empty());
        assert(encoded_row(row, layout) =~= le_bytes(versions[0] as nat, 8));
    }
}

/// A handler that answers the next watching query with events of these versions and
/// nothing else.
pub fn watch_only_events(versions: &Vec<u64>) -> (h: Handler)
    ensures
        h@ == HandlerView::Provide(encoded_versions(versions@)),
{
    let mut body: Vec<u8> = Vec::new();
    let mut i: usize = 0;
    proof {
        assert(versions@.skip(0) =~= versions@);
        assert(body@ + encoded_versions(versions@) =~= encoded_versions(versions@));
    }
    while i < versions.len()
        invariant
            i <= versions.len(),
            body@ + encoded_versions(versions@.skip(i as int)) == encoded_versions(versions@),
        decreases versions.len() - i,
    {
        let ghost before = body@;
        let ghost rest = encoded_versions(versions@.skip(i + 1));
        proof {
            assert(versions@.skip(i as int).skip(1) =~= versions@.skip(i + 1));
        }
        write_le(&mut body, versions[i], 8);
        proof {
            assert(body@ + rest =~= before + (le_bytes(versions@[i as int] as nat, 8) + rest));
        }
        i += 1;
    }
    proof {
        assert(body@ + encoded_versions(versions@.skip(versions.len() as int)) =~= body@);
    }
    Handler::Provide(body)
}

} // verus!
