//! The HTML of a rendered block.
use vstd::prelude::*;
use super::builders::{attrs_view, events_view, Attribute, Event, EventView};
use super::escape::{escaped, push_escaped};

verus! {

/// The HTML of a list of attributes: ` name="value"` for each, the value escaped.
pub open spec fn attrs_html(attrs: Seq<(Seq<char>, Seq<char>)>) -> Seq<char>
    decreases attrs.len(),
{
    if attrs.len() == 0 {
        Seq::empty()
    } else {
        attrs_html(attrs.drop_last()) + seq![' '] + attrs.last().0 + seq!['=', '"'] + escaped(
            attrs.last().1,
        ) + seq!['"']
    }
}

/// The HTML of one event: `<name attrs>`, the escaped text, or `</name>`.
pub open spec fn event_html(e: EventView) -> Seq<char> {
    match e {
        EventView::TagStart { name, attrs } => seq!['<'] + name + attrs_html(attrs) + seq!['>'],
        EventView::Text { text } => escaped(text),
        EventView::TagEnd { name } => seq!['<', '/'] + name + seq!['>'],
    }
}

/// The HTML of a list of events, one after another.
pub open spec fn events_html(events: Seq<EventView>) -> Seq<char>
    decreases events.len(),
{
    if events.len() == 0 {
        Seq::empty()
    } else {
        events_html(events.drop_last()) + event_html(events.last())
    }
}

/// The events of one rendered block.
#[derive(Debug)]
pub struct Output {
    events: Vec<Event>,
}

impl View for Output {
    type V = Seq<EventView>;

    /// The events, in order.
    closed spec fn view(&self) -> Seq<EventView> {
        events_view(self.events@)
    }
}

fn format_attrs(out: &mut String, attrs: &Vec<Attribute>)
    ensures
        final(out)@ == old(out)@ + attrs_html(attrs_view(attrs@)),
{
    let ghost start = out@;
    let mut i: usize = 0;
    while i < attrs.len()
        invariant
            i <= attrs.len(),
            out@ == start + attrs_html(attrs_view(attrs@.take(i as int))),
        decreases attrs.len() - i,
    {
        let attr = &attrs[i];
        out.push(' ');
        out.push_str(attr.0.as_str());
        out.push('=');
        out.push('"');
        push_escaped(out, attr.1.as_str());
        out.push('"');
        proof {
            let a = attrs_view(attrs@.take(i + 1));
            assert(a.drop_last() =~= attrs_view(attrs@.take(i as int)));
            assert(a.last() == (attr.0@, attr.1@));
            assert(out@ =~= start + attrs_html(a));
        }
        i = i + 1;
    }
    assert(attrs@.take(i as int) =~= attrs@);
}

fn format_event(out: &mut String, event: &Event)
    ensures
        final(out)@ == old(out)@ + event_html(event@),
{
    let ghost start = out@;
    match event {
        Event::Text { text } => {
            push_escaped(out, text.as_str());
        },
        Event::TagStart { name, attrs } => {
            out.push('<');
            out.push_str(name.as_str());
            format_attrs(out, attrs);
            out.push('>');
            assert(out@ =~= start + event_html(event@));
        },
        Event::TagEnd { name } => {
            out.push('<');
            out.push('/');
            out.push_str(name.as_str());
            out.push('>');
            assert(out@ =~= start + event_html(event@));
        },
    }
}

impl Output {
    pub(crate) fn new(events: Vec<Event>) -> (r: Self)
        ensures
            r@ == events_view(events@),
    {
        Output { events }
    }

    /// The HTML text of the events.
    pub fn to_string(&self) -> (r: String)
        ensures
            r@ == events_html(self@),
    {
        let mut out = String::new();
        let mut i: usize = 0;
        while i < self.events.len()
            invariant
                i <= self.events.len(),
                out@ == events_html(events_view(self.events@.take(i as int))),
            decreases self.events.len() - i,
        {
            format_event(&mut out, &self.events[i]);
            proof {
                let e = events_view(self.events@.take(i + 1));
                assert(e.drop_last() =~= events_view(self.events@.take(i as int)));
            }
            i = i + 1;
        }
        assert(self.events@.take(i as int) =~= self.events@);
        out
    }
}

} // verus!
