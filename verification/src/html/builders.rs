//! Building the sequence of HTML events of a block.
use vstd::prelude::*;
use super::output::Output;

verus! {

/// An attribute of a tag: its name and its value.
pub type Attribute = (String, String);

/// One step of HTML output: an opening tag, a text, or a closing tag.
#[derive(Debug)]
pub enum Event {
    TagStart { name: String, attrs: Vec<Attribute> },
    Text { text: String },
    TagEnd { name: String },
}

/// The mathematical value of an event.
pub enum EventView {
    TagStart { name: Seq<char>, attrs: Seq<(Seq<char>, Seq<char>)> },
    Text { text: Seq<char> },
    TagEnd { name: Seq<char> },
}

/// The mathematical value of a list of attributes.
pub open spec fn attrs_view(attrs: Seq<Attribute>) -> Seq<(Seq<char>, Seq<char>)> {
    attrs.map_values(|a: Attribute| (a.0@, a.1@))
}

impl View for Event {
    type V = EventView;

    open spec fn view(&self) -> EventView {
        match self {
            Event::TagStart { name, attrs } => EventView::TagStart {
                name: name@,
                attrs: attrs_view(attrs@),
            },
            Event::Text { text } => EventView::Text { text: text@ },
            Event::TagEnd { name } => EventView::TagEnd { name: name@ },
        }
    }
}

/// The mathematical value of a list of events.
pub open spec fn events_view(events: Seq<Event>) -> Seq<EventView> {
    events.map_values(|e: Event| e@)
}

/// Collects the HTML events of one block.
#[derive(Debug)]
pub struct Builder {
    events: Vec<Event>,
}

/// An opening tag being built: its name and attributes so far, and the builder
/// it goes to once finished.
#[derive(Debug)]
pub struct TagStartBuilder<'a> {
    pub name: String,
    pub attrs: Vec<Attribute>,
    pub builder: &'a mut Builder,
}

impl View for Builder {
    type V = Seq<EventView>;

    /// The events collected so far, in order.
    closed spec fn view(&self) -> Seq<EventView> {
        events_view(self.events@)
    }
}

impl Builder {
    /// A builder with no events.
    pub fn new() -> (r: Self)
        ensures
            r@ == Seq::<EventView>::empty(),
    {
        let r = Builder { events: Vec::new() };
        assert(r@ =~= Seq::<EventView>::empty());
        r
    }

    /// The collected events, as output.
    pub fn consume(self) -> (r: Output)
        ensures
            r@ == self@,
    {
        Output::new(self.events)
    }

    /// Starts an opening tag named `name`, with no attributes yet.
    pub fn tag_start<'b>(&'b mut self, name: &str) -> (r: TagStartBuilder<'b>)
        ensures
            r.name@ == name@,
            attrs_view(r.attrs@) == Seq::<(Seq<char>, Seq<char>)>::empty(),
            *r.builder == *old(self),
            *final(self) == *final(r.builder),
    {
        let r = TagStartBuilder { name: name.to_owned(), attrs: Vec::new(), builder: self };
        assert(attrs_view(r.attrs@) =~= Seq::<(Seq<char>, Seq<char>)>::empty());
        r
    }

    /// Adds a text.
    pub fn text(&mut self, text: &str) -> (r: &mut Self)
        ensures
            r@ == old(self)@.push(EventView::Text { text: text@ }),
            *final(self) == *final(r),
    {
        self.append(Event::Text { text: text.to_owned() });
        self
    }

    /// Adds a closing tag named `name`.
    pub fn tag_end(&mut self, name: &str) -> (r: &mut Self)
        ensures
            r@ == old(self)@.push(EventView::TagEnd { name: name@ }),
            *final(self) == *final(r),
    {
        self.append(Event::TagEnd { name: name.to_owned() });
        self
    }

    fn append(&mut self, event: Event)
        ensures
            final(self)@ == old(self)@.push(event@),
    {
        self.events.push(event);
        assert(events_view(self.events@) =~= events_view(old(self).events@).push(event@));
    }
}

impl<'a> TagStartBuilder<'a> {
    /// Adds the attribute `name="value"`.
    pub fn add_attr(&mut self, name: &str, value: &str) -> (r: &mut Self)
        ensures
            attrs_view(r.attrs@) == attrs_view(old(self).attrs@).push((name@, value@)),
            r.name == old(self).name,
            r.builder == old(self).builder,
            *final(self) == *final(r),
    {
        self.attrs.push((name.to_owned(), value.to_owned()));
        assert(attrs_view(self.attrs@) =~= attrs_view(old(self).attrs@).push((name@, value@)));
        self
    }

    /// Adds the opening tag to the builder, and hands the builder back.
    pub fn finish(&'a mut self) -> (r: &'a mut Builder)
        ensures
            r@ == (*old(self).builder)@.push(
                EventView::TagStart { name: old(self).name@, attrs: attrs_view(old(self).attrs@) },
            ),
            *final(r) == *final(self).builder,
            *final(final(self).builder) == *final(old(self).builder),
    {
        let mut attrs = vec![];
        std::mem::swap(&mut self.attrs, &mut attrs);
        self.builder.append(Event::TagStart { attrs, name: self.name.clone() });
        self.builder
    }
}

} // verus!
