//! Server-sent events.

use vstd::prelude::*;
use vstd::utf8::encode_utf8;
use crate::text::{chars_of, decimal, push_chars, push_decimal, split, split_chars, views};

verus! {

/// An event that can be sent as a server-sent event.
pub struct Event {
    id: Option<u32>,
    event: String,
    data: String,
}

/// What an event holds.
pub struct EventView {
    pub id: Option<u32>,
    pub event: Seq<char>,
    pub data: Seq<char>,
}

impl View for Event {
    type V = EventView;

    closed spec fn view(&self) -> EventView {
        EventView { id: self.id, event: self.event@, data: self.data@ }
    }
}

/// The `data` fields for the lines of an event's data, each ended by a line
/// feed.
pub open spec fn data_fields(lines: Seq<Seq<char>>) -> Seq<char>
    decreases lines.len(),
{
    if lines.len() == 0 {
        Seq::empty()
    } else {
        data_fields(lines.drop_last()) + "data: "@ + lines.last() + "\n"@
    }
}

/// An event as text: the `id` field where there is an id, the `event`
/// field, one `data` field for each line of the data, and an empty line.
pub open spec fn event_text(e: EventView) -> Seq<char> {
    (match e.id {
        Some(id) => "id: "@ + decimal(id as nat) + "\n"@,
        None => Seq::empty(),
    }) + "event: "@ + e.event + "\n"@ + data_fields(split(e.data, '\n')) + "\n"@
}

/// The head of the response that opens a stream of events.
pub open spec fn stream_head() -> Seq<u8> {
    encode_utf8(
        "HTTP/1.1 200 OK\r\nContent-Type: text/event-stream\r\nCache-Control: no-cache\r\n\r\n"@,
    )
}

/// The bytes that open a stream of events on a connection.
pub fn stream_head_bytes() -> (b: Vec<u8>)
    ensures
        b@ == stream_head(),
{
    "HTTP/1.1 200 OK\r\nContent-Type: text/event-stream\r\nCache-Control: no-cache\r\n\r\n".as_bytes_vec()
}

impl Event {
    /// An event of the given type, without id and data.
    pub fn new(event_type: &str) -> (e: Event)
        ensures
            e@ == (EventView { id: None, event: event_type@, data: Seq::empty() }),
    {
        Event { id: None, event: event_type.to_owned(), data: String::new() }
    }

    /// Sets the id of the event.
    pub fn id(self, id: u32) -> (e: Event)
        ensures
            e@ == (EventView { id: Some(id), ..self@ }),
    {
        let mut e = self;
        e.id = Some(id);
        e
    }

    /// Appends to the data of the event.
    pub fn data(self, data: &str) -> (e: Event)
        ensures
            e@ == (EventView { data: self@.data + data@, ..self@ }),
    {
        let mut e = self;
        e.data.append(data);
        e
    }

    /// The event as text.
    pub fn to_string(&self) -> (out: String)
        ensures
            out@ == event_text(self@),
    {
        let mut out = String::new();
        match self.id {
            Some(id) => {
                out.append("id: ");
                push_decimal(&mut out, id as u64);
                out.append("\n");
                assert(out@ =~= "id: "@ + decimal(id as nat) + "\n"@);
            },
            None => {},
        }
        let ghost first = out@;
        out.append("event: ");
        out.append(self.event.as_str());
        out.append("\n");
        let ghost start = out@;
        assert(start =~= first + "event: "@ + self@.event + "\n"@);
        let lines = split_chars(&chars_of(self.data.as_str()), '\n');
        let ghost ls = views(lines@);
        let mut i: usize = 0;
        assert(ls.take(0) =~= Seq::<Seq<char>>::empty());
        assert(out@ =~= start + data_fields(ls.take(0)));
        while i < lines.len()
            invariant
                i <= lines.len(),
                ls == views(lines@),
                out@ == start + data_fields(ls.take(i as int)),
            decreases lines.len() - i,
        {
            out.append("data: ");
            push_chars(&mut out, &lines[i]);
            out.append("\n");
            proof {
                let t = ls.take(i + 1);
                assert(t.drop_last() == ls.take(i as int));
                assert(t.last() == lines@[i as int]@);
                assert(out@ =~= start + data_fields(t));
            }
            i = i + 1;
        }
        assert(ls.take(lines.len() as int) == ls);
        out.append("\n");
        assert(out@ =~= event_text(self@));
        out
    }
}

} // verus!
