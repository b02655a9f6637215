//! How each kind of block becomes HTML events.
use vstd::prelude::*;
use super::builders::{Builder, EventView};
use super::escape::escaped;
use super::output::{event_html, events_html};
use crate::ast::{text_view, HeadingLevel, Inline, InlineView, ListType, Text};
use crate::strings::{ascii_lowercase, to_ascii_lowercase};

verus! {

/// The tag of a heading of level `level`: `h1`, `h2` or `h3`.
pub open spec fn heading_tag(level: HeadingLevel) -> Seq<char> {
    match level {
        HeadingLevel::Level1 => seq!['h', '1'],
        HeadingLevel::Level2 => seq!['h', '2'],
        HeadingLevel::Level3 => seq!['h', '3'],
    }
}

/// The tag of a list of kind `kind`: `ul` or `ol`.
pub open spec fn list_tag(kind: ListType) -> Seq<char> {
    match kind {
        ListType::Unordered => seq!['u', 'l'],
        ListType::Ordered => seq!['o', 'l'],
    }
}

/// An opening tag without attributes.
pub open spec fn open_tag(name: Seq<char>) -> EventView {
    EventView::TagStart { name, attrs: Seq::empty() }
}

/// A closing tag.
pub open spec fn close_tag(name: Seq<char>) -> EventView {
    EventView::TagEnd { name }
}

/// The events of a heading: the heading tag around its text, put in lower case.
pub open spec fn heading_events(level: HeadingLevel, content: Seq<char>) -> Seq<EventView> {
    seq![
        open_tag(heading_tag(level)),
        EventView::Text { text: ascii_lowercase(content) },
        close_tag(heading_tag(level)),
    ]
}

/// The events of an inline element: `<br>` for a line break, the text of a chunk.
pub open spec fn inline_events(inline: InlineView) -> Seq<EventView> {
    match inline {
        InlineView::LineBreak => seq![open_tag(seq!['b', 'r'])],
        InlineView::Chunk(text) => seq![EventView::Text { text }],
    }
}

/// The events of a run of inline content, element after element.
pub open spec fn text_events(text: Seq<InlineView>) -> Seq<EventView>
    decreases text.len(),
{
    if text.len() == 0 {
        Seq::empty()
    } else {
        text_events(text.drop_last()) + inline_events(text.last())
    }
}

/// The events of a text between an opening and a closing tag named `tag`.
pub open spec fn wrapped_events(tag: Seq<char>, text: Seq<InlineView>) -> Seq<EventView> {
    seq![open_tag(tag)] + text_events(text) + seq![close_tag(tag)]
}

/// The events of the items of a list, each between `<li>` and `</li>`.
pub open spec fn items_events(items: Seq<Seq<InlineView>>) -> Seq<EventView>
    decreases items.len(),
{
    if items.len() == 0 {
        Seq::empty()
    } else {
        items_events(items.drop_last()) + wrapped_events(seq!['l', 'i'], items.last())
    }
}

/// The events before a list item's text: the item's opening tag.
#[verifier::opaque]
pub open spec fn item_start(events: Seq<EventView>) -> Seq<EventView> {
    events.push(open_tag(seq!['l', 'i']))
}

/// The events after a list item's text: the item's closing tag.
#[verifier::opaque]
pub open spec fn item_end(events: Seq<EventView>) -> Seq<EventView> {
    events.push(close_tag(seq!['l', 'i']))
}

/// The events of a list: its items, then the closing list tag. The opening
/// list tag is started but never finished, so it is not among the events.
pub open spec fn list_events(kind: ListType, items: Seq<Seq<InlineView>>) -> Seq<EventView> {
    items_events(items) + seq![close_tag(list_tag(kind))]
}

/// A heading rendered by the provided method reads `<hN>`, the escaped text in
/// lower case, `</hN>`.
pub proof fn lemma_heading_html(level: HeadingLevel, content: Seq<char>)
    ensures
        events_html(heading_events(level, content)) == seq!['<'] + heading_tag(level) + seq!['>']
            + escaped(ascii_lowercase(content)) + seq!['<', '/'] + heading_tag(level) + seq!['>'],
{
    let e = heading_events(level, content);
    let e2 = e.drop_last();
    let e1 = e2.drop_last();
    let e0 = e1.drop_last();
    let tag = heading_tag(level);
    assert(e0 =~= Seq::<EventView>::empty());
    assert(e1.last() == open_tag(tag));
    assert(e2.last() == EventView::Text { text: ascii_lowercase(content) });
    assert(e.last() == close_tag(tag));
    assert(events_html(e0) == Seq::<char>::empty());
    assert(event_html(open_tag(tag)) =~= seq!['<'] + tag + seq!['>']);
    assert(events_html(e1) == events_html(e0) + event_html(open_tag(tag)));
    assert(events_html(e1) =~= seq!['<'] + tag + seq!['>']);
    assert(events_html(e2) =~= seq!['<'] + tag + seq!['>'] + escaped(ascii_lowercase(content)));
    assert(events_html(e) =~= seq!['<'] + tag + seq!['>'] + escaped(ascii_lowercase(content)) + seq!['<', '/']
        + tag + seq!['>']);
}

///
/// HTML generation might need to be customized to invividual use.
/// A `Format` allows to customize output generation (e.g. custom tags, classes, ...)
///
pub trait Format {
    /// Whether this format renders every block as the provided methods do;
    /// a format says so only if it keeps them all.
    open spec fn renders_by_default(&self) -> bool {
        false
    }

    /// Renders a heading.
    fn heading(&self, builder: &mut Builder, level: HeadingLevel, content: String)
        ensures
            self.renders_by_default() ==> final(builder)@ == old(builder)@ + heading_events(
                level,
                content@,
            ),
        default_ensures
            final(builder)@ == old(builder)@ + heading_events(level, content@),
    {
        let tag = match level {
            HeadingLevel::Level1 => "h1",
            HeadingLevel::Level2 => "h2",
            HeadingLevel::Level3 => "h3",
        };
        proof {
            reveal_strlit("h1");
            reveal_strlit("h2");
            reveal_strlit("h3");
            assert(tag@ =~= heading_tag(level));
        }
        let text = to_ascii_lowercase(content.as_str());
        builder.tag_start(tag).finish().text(text.as_str()).tag_end(tag);
        assert(builder@ =~= old(builder)@ + heading_events(level, content@));
    }

    /// Renders a paragraph.
    fn paragraph(&self, builder: &mut Builder, text: Text)
        ensures
            self.renders_by_default() ==> final(builder)@ == old(builder)@ + wrapped_events(
                seq!['p'],
                text_view(text@),
            ),
        default_ensures
            exists|b: &mut Builder|
                #![trigger call_ensures(Self::text, (self, b, text), ())]
                {
                    &&& (*b)@ == old(builder)@.push(open_tag(seq!['p']))
                    &&& call_ensures(Self::text, (self, b, text), ())
                    &&& final(builder)@ == (*final(b))@.push(close_tag(seq!['p']))
                },
    {
        proof {
            reveal_strlit("p");
            assert("p"@ =~= seq!['p']);
        }
        builder.tag_start("p").finish();
        let ghost before = builder@;
        let ghost t = text;
        self.text(builder, text);
        let ghost after = builder@;
        assert(exists|b: &mut Builder|
            #![trigger call_ensures(Self::text, (self, b, t), ())]
            call_ensures(Self::text, (self, b, t), ()) && (*b)@ == before && (*final(b))@ == after);
        builder.tag_end("p");
        assert(self.renders_by_default() ==> builder@ =~= old(builder)@ + wrapped_events(
            seq!['p'],
            text_view(text@),
        ));
    }

    /// Renders a quote.
    fn quote(&self, builder: &mut Builder, text: Text)
        ensures
            self.renders_by_default() ==> final(builder)@ == old(builder)@ + wrapped_events(
                seq!['b', 'l', 'o', 'c', 'k', 'q', 'u', 'o', 't', 'e'],
                text_view(text@),
            ),
        default_ensures
            exists|b: &mut Builder|
                #![trigger call_ensures(Self::text, (self, b, text), ())]
                {
                    &&& (*b)@ == old(builder)@.push(open_tag(seq!['b', 'l', 'o', 'c', 'k', 'q', 'u', 'o', 't', 'e']))
                    &&& call_ensures(Self::text, (self, b, text), ())
                    &&& final(builder)@ == (*final(b))@.push(close_tag(seq!['b', 'l', 'o', 'c', 'k', 'q', 'u', 'o', 't', 'e']))
                },
    {
        proof {
            reveal_strlit("blockquote");
            assert("blockquote"@ =~= seq!['b', 'l', 'o', 'c', 'k', 'q', 'u', 'o', 't', 'e']);
        }
        builder.tag_start("blockquote").finish();
        let ghost before = builder@;
        let ghost t = text;
        self.text(builder, text);
        let ghost after = builder@;
        assert(exists|b: &mut Builder|
            #![trigger call_ensures(Self::text, (self, b, t), ())]
            call_ensures(Self::text, (self, b, t), ()) && (*b)@ == before && (*final(b))@ == after);
        builder.tag_end("blockquote");
        assert(self.renders_by_default() ==> builder@ =~= old(builder)@ + wrapped_events(
            seq!['b', 'l', 'o', 'c', 'k', 'q', 'u', 'o', 't', 'e'],
            text_view(text@),
        ));
    }

    /// Renders a list.
    #[verifier::rlimit(80)]
    fn list(&self, builder: &mut Builder, list_type: ListType, items: Vec<Text>)
        ensures
            self.renders_by_default() ==> final(builder)@ == old(builder)@ + list_events(
                list_type,
                items@.map_values(|t: Text| text_view(t@)),
            ),
        default_ensures
            exists|bs: Seq<&mut Builder>|
                #![trigger bs.len()]
                {
                    &&& bs.len() == items@.len()
                    &&& forall|j: int|
                        0 <= j < bs.len() ==> call_ensures(
                            Self::text,
                            (self, #[trigger] bs[j], items@[j]),
                            (),
                        )
                    &&& forall|j: int|
                        0 <= j < bs.len() ==> (*#[trigger] bs[j])@ == item_start(if j == 0 {
                            old(builder)@
                        } else {
                            item_end((*final(bs[j - 1]))@)
                        })
                    &&& final(builder)@ == (if bs.len() == 0 {
                        old(builder)@
                    } else {
                        item_end((*final(bs[bs.len() - 1]))@)
                    }).push(close_tag(list_tag(list_type)))
                },
    {
        let tag = match list_type {
            ListType::Unordered => "ul",
            ListType::Ordered => "ol",
        };
        proof {
            reveal_strlit("ul");
            reveal_strlit("ol");
            assert(tag@ =~= list_tag(list_type));
        }
        builder.tag_start(tag);
        let ghost start = builder@;
        assert(start == old(builder)@);
        let ghost all = items@.map_values(|t: Text| text_view(t@));
        assert(Seq::<&mut Builder>::empty().len() == 0);
        for item in it: items.into_iter()
            invariant
                it.seq() == items@,
                it.seq().map_values(|t: Text| text_view(t@)) == all,
                self.renders_by_default() ==> builder@ == start + items_events(
                    all.take(it.index() as int),
                ),
                exists|bs: Seq<&mut Builder>|
                    #![trigger bs.len()]
                    {
                        &&& bs.len() == it.index()
                        &&& forall|j: int|
                            0 <= j < bs.len() ==> call_ensures(
                                Self::text,
                                (self, #[trigger] bs[j], items@[j]),
                                (),
                            )
                        &&& forall|j: int|
                            0 <= j < bs.len() ==> (*#[trigger] bs[j])@ == item_start(if j == 0 {
                                start
                            } else {
                                item_end((*final(bs[j - 1]))@)
                            })
                        &&& builder@ == (if bs.len() == 0 {
                            start
                        } else {
                            item_end((*final(bs[bs.len() - 1]))@)
                        })
                    },
        {
            let ghost i0 = it.index();
            let ghost before = builder@;
            let ghost x = item;
            proof {
                reveal_strlit("li");
                assert("li"@ =~= seq!['l', 'i']);
            }
            builder.tag_start("li").finish();
            let ghost opened = builder@;
            assert(opened == item_start(before)) by {
                reveal(item_start);
            }
            self.text(builder, item);
            let ghost texted = builder@;
            builder.tag_end("li");
            proof {
                assert(all.take(it.index() + 1).drop_last() =~= all.take(it.index() as int));
                assert(all[it.index() as int] == text_view(x@));
                assert(self.renders_by_default() ==> builder@ == start + items_events(all.take(it.index() + 1))) by {
                  if self.renders_by_default() {
                    assert(all.take(it.index() + 1).last() == all[it.index() as int]);
                    assert(builder@ =~= before + wrapped_events(seq!['l', 'i'], all[it.index() as int]));
                    assert(items_events(all.take(it.index() + 1)) == items_events(all.take(it.index() as int)) + wrapped_events(seq!['l', 'i'], all[it.index() as int]));
                    assert(builder@ =~= start + items_events(all.take(it.index() + 1)));
                  }
                }
                let bs0 = choose|bs: Seq<&mut Builder>|
                    #![trigger bs.len()]
                    {
                        &&& bs.len() == i0
                        &&& forall|j: int|
                            0 <= j < bs.len() ==> call_ensures(
                                Self::text,
                                (self, #[trigger] bs[j], items@[j]),
                                (),
                            )
                        &&& forall|j: int|
                            0 <= j < bs.len() ==> (*#[trigger] bs[j])@ == item_start(if j == 0 {
                                start
                            } else {
                                item_end((*final(bs[j - 1]))@)
                            })
                        &&& before == (if bs.len() == 0 {
                            start
                        } else {
                            item_end((*final(bs[bs.len() - 1]))@)
                        })
                    };
                assert(exists|b: &mut Builder|
                    #![trigger call_ensures(Self::text, (self, b, x), ())]
                    call_ensures(Self::text, (self, b, x), ()) && (*b)@ == opened && (*final(b))@
                        == texted);
                let b = choose|b: &mut Builder|
                    #![trigger call_ensures(Self::text, (self, b, x), ())]
                    call_ensures(Self::text, (self, b, x), ()) && (*b)@ == opened && (*final(b))@
                        == texted;
                let bs1 = bs0.push(b);
                assert(items@[i0 as int] == x);
                assert forall|j: int| 0 <= j < bs1.len() implies call_ensures(
                    Self::text,
                    (self, #[trigger] bs1[j], items@[j]),
                    (),
                ) by {
                    if j < i0 {
                        assert(bs1[j] == bs0[j]);
                    }
                }
                assert forall|j: int| 0 <= j < bs1.len() implies (*#[trigger] bs1[j])@ == item_start(if j
                    == 0 {
                    start
                } else {
                    item_end((*final(bs1[j - 1]))@)
                }) by {
                    if j < i0 {
                        assert(bs1[j] == bs0[j]);
                    }
                    if j > 0 {
                        assert(bs1[j - 1] == bs0[j - 1]);
                    }
                }
                assert(bs1.len() == i0 + 1);
                assert(bs1[bs1.len() - 1] == b);
                assert(builder@ == item_end(texted)) by {
                    reveal(item_end);
                }
            }
        }
        builder.tag_end(tag);
        proof {
            assert(all.take(all.len() as int) =~= all);
        }
        assert(self.renders_by_default() ==> builder@ =~= old(builder)@ + list_events(
            list_type,
            all,
        ));
    }

    /// Renders a run of inline content.
    fn text(&self, builder: &mut Builder, text: Text)
        ensures
            self.renders_by_default() ==> final(builder)@ == old(builder)@ + text_events(
                text_view(text@),
            ),
        default_ensures
            exists|bs: Seq<&mut Builder>|
                #![trigger bs.len()]
                {
                    &&& bs.len() == text@.len()
                    &&& forall|j: int|
                        0 <= j < bs.len() ==> call_ensures(
                            Self::inline,
                            (self, #[trigger] bs[j], text@[j]),
                            (),
                        )
                    &&& forall|j: int|
                        0 <= j < bs.len() ==> (*#[trigger] bs[j])@ == (if j == 0 {
                            old(builder)@
                        } else {
                            (*final(bs[j - 1]))@
                        })
                    &&& final(builder)@ == (if bs.len() == 0 {
                        old(builder)@
                    } else {
                        (*final(bs[bs.len() - 1]))@
                    })
                },
    {
        let ghost start = builder@;
        let ghost all = text_view(text@);
        assert(Seq::<&mut Builder>::empty().len() == 0);
        for inline in it: text.into_iter()
            invariant
                it.seq() == text@,
                it.seq().map_values(|i: Inline| i@) == all,
                self.renders_by_default() ==> builder@ == start + text_events(
                    all.take(it.index() as int),
                ),
                exists|bs: Seq<&mut Builder>|
                    #![trigger bs.len()]
                    {
                        &&& bs.len() == it.index()
                        &&& forall|j: int|
                            0 <= j < bs.len() ==> call_ensures(
                                Self::inline,
                                (self, #[trigger] bs[j], text@[j]),
                                (),
                            )
                        &&& forall|j: int|
                            0 <= j < bs.len() ==> (*#[trigger] bs[j])@ == (if j == 0 {
                                start
                            } else {
                                (*final(bs[j - 1]))@
                            })
                        &&& builder@ == (if bs.len() == 0 {
                            start
                        } else {
                            (*final(bs[bs.len() - 1]))@
                        })
                    },
        {
            let ghost i0 = it.index();
            let ghost before = builder@;
            let ghost x = inline;
            self.inline(builder, inline);
            proof {
                assert(all.take(it.index() + 1).drop_last() =~= all.take(it.index() as int));
                assert(all[it.index() as int] == x@);
                let bs0 = choose|bs: Seq<&mut Builder>|
                    #![trigger bs.len()]
                    {
                        &&& bs.len() == i0
                        &&& forall|j: int|
                            0 <= j < bs.len() ==> call_ensures(
                                Self::inline,
                                (self, #[trigger] bs[j], text@[j]),
                                (),
                            )
                        &&& forall|j: int|
                            0 <= j < bs.len() ==> (*#[trigger] bs[j])@ == (if j == 0 {
                                start
                            } else {
                                (*final(bs[j - 1]))@
                            })
                        &&& before == (if bs.len() == 0 {
                            start
                        } else {
                            (*final(bs[bs.len() - 1]))@
                        })
                    };
                assert(exists|b: &mut Builder|
                    #![trigger call_ensures(Self::inline, (self, b, x), ())]
                    call_ensures(Self::inline, (self, b, x), ()) && (*b)@ == before && (*final(b))@
                        == builder@);
                let b = choose|b: &mut Builder|
                    #![trigger call_ensures(Self::inline, (self, b, x), ())]
                    call_ensures(Self::inline, (self, b, x), ()) && (*b)@ == before && (*final(b))@
                        == builder@;
                let bs1 = bs0.push(b);
                assert(text@[i0 as int] == x);
                assert forall|j: int| 0 <= j < bs1.len() implies call_ensures(
                    Self::inline,
                    (self, #[trigger] bs1[j], text@[j]),
                    (),
                ) by {
                    if j < i0 {
                        assert(bs1[j] == bs0[j]);
                    }
                }
                assert forall|j: int| 0 <= j < bs1.len() implies (*#[trigger] bs1[j])@ == (if j
                    == 0 {
                    start
                } else {
                    (*final(bs1[j - 1]))@
                }) by {
                    if j < i0 {
                        assert(bs1[j] == bs0[j]);
                    }
                    if j > 0 {
                        assert(bs1[j - 1] == bs0[j - 1]);
                    }
                }
                assert(bs1.len() == i0 + 1);
                assert(bs1[bs1.len() - 1] == b);
            }
        }
        proof {
            assert(all.take(all.len() as int) =~= all);
        }
    }

    /// Renders an inline element.
    fn inline(&self, builder: &mut Builder, inline: Inline)
        ensures
            self.renders_by_default() ==> final(builder)@ == old(builder)@ + inline_events(
                inline@,
            ),
        default_ensures
            final(builder)@ == old(builder)@ + inline_events(inline@),
    {
        match inline {
            Inline::LineBreak => {
                proof {
                    reveal_strlit("br");
                    assert("br"@ =~= seq!['b', 'r']);
                }
                builder.tag_start("br").finish();
                assert(builder@ =~= old(builder)@ + inline_events(inline@));
            },
            Inline::Chunk(text) => {
                builder.text(text.as_str());
            },
        }
    }
}

/// The format that renders every block as the provided methods of `Format` do.
#[derive(Debug)]
pub struct DefaultFormat;

impl Format for DefaultFormat {
    open spec fn renders_by_default(&self) -> bool {
        true
    }
}

} // verus!
