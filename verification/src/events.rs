//! The document event stream and heading extraction.
//!
//! A document is seen as an ordered stream of events.  The library keeps
//! its own event type holding exactly what the extractor reads: heading
//! boundaries with their raw declared level, plain text runs, and inline
//! code runs.  Every other markup construct is opaque.

use vstd::prelude::*;

verus! {

/// One event of a document's content stream.
pub enum DocEvent {
    /// A heading region opens, with its raw declared depth (1 = top).
    HeadingStart(u32),
    /// The most recently opened heading region closes.
    HeadingEnd,
    /// A run of plain text.
    Text(String),
    /// An inline code span.
    Code(String),
    /// Any other construct; it contributes nothing to a heading's text.
    Other,
}

/// A heading pulled out of the stream: its raw declared level and its
/// flattened inline text.
pub struct Heading {
    pub level: u32,
    pub text: String,
}

/// The mathematical content of a heading: `(raw level, text)`.
pub open spec fn heading_views(hs: Seq<Heading>) -> Seq<(u32, Seq<char>)> {
    hs.map_values(|h: Heading| (h.level, h.text@))
}

/// The flattened text of the heading region that starts at the front of
/// `evs`: plain text is appended verbatim, inline code is wrapped in
/// backticks, anything else is skipped; the region ends at the first
/// heading-end event (or at the end of the stream).
pub open spec fn region_text(evs: Seq<DocEvent>) -> Seq<char>
    decreases evs.len(),
{
    if evs.len() == 0 {
        Seq::empty()
    } else {
        match evs[0] {
            DocEvent::HeadingEnd => Seq::empty(),
            DocEvent::Text(s) => s@ + region_text(evs.skip(1)),
            DocEvent::Code(s) => seq!['`'] + s@ + seq!['`'] + region_text(evs.skip(1)),
            _ => region_text(evs.skip(1)),
        }
    }
}

/// How many events the heading region at the front of `evs` spans,
/// counting its closing heading-end event; the whole rest of the stream
/// if no heading-end follows.
pub open spec fn region_len(evs: Seq<DocEvent>) -> int
    decreases evs.len(),
{
    if evs.len() == 0 {
        0
    } else if evs[0] is HeadingEnd {
        1
    } else {
        1 + region_len(evs.skip(1))
    }
}

pub proof fn lemma_region_len_bounds(evs: Seq<DocEvent>)
    ensures
        0 <= region_len(evs) <= evs.len(),
    decreases evs.len(),
{
    if evs.len() > 0 && !(evs[0] is HeadingEnd) {
        lemma_region_len_bounds(evs.skip(1));
    }
}

/// The headings of an event stream, in document order: each heading-start
/// event opens a region that runs to the matching heading-end, and yields
/// the pair of its raw level and the region's flattened text.
pub open spec fn extracted(evs: Seq<DocEvent>) -> Seq<(u32, Seq<char>)>
    decreases evs.len(),
    via extracted_decreases
{
    if evs.len() == 0 {
        Seq::empty()
    } else {
        match evs[0] {
            DocEvent::HeadingStart(l) => {
                let rest = evs.skip(1);
                seq![(l, region_text(rest))] + extracted(rest.skip(region_len(rest)))
            },
            _ => extracted(evs.skip(1)),
        }
    }
}

#[via_fn]
proof fn extracted_decreases(evs: Seq<DocEvent>) {
    if evs.len() > 0 {
        lemma_region_len_bounds(evs.skip(1));
    }
}

/// The event stream that the markup parser produces for a document's
/// content.  Parsing is deterministic: the same text always gives the
/// same stream.
pub uninterp spec fn events_of(content: Seq<char>) -> Seq<DocEvent>;

/// Relies on `pulldown_cmark::Parser::new`: a pure function of the text,
/// whose events are translated one variant at a time into the library's
/// event type.  A heading level comes from an ATX opening (`#` repeated
/// one to six times) or a setext underline (level 1 or 2), so every raw
/// level lies between 1 and 6.
#[verifier::external_body]
pub(crate) fn parse_events(content: &str) -> (evs: Vec<DocEvent>)
    ensures
        evs@ == events_of(content@),
        forall|i: int|
            0 <= i < evs@.len() ==> ((#[trigger] evs@[i]) matches DocEvent::HeadingStart(l) ==> 1
                <= l <= 6),
{
    pulldown_cmark::Parser::new(content).map(|ev| match ev {
        pulldown_cmark::Event::Start(pulldown_cmark::Tag::Heading(l)) => DocEvent::HeadingStart(l),
        pulldown_cmark::Event::End(pulldown_cmark::Tag::Heading(_)) => DocEvent::HeadingEnd,
        pulldown_cmark::Event::Text(t) => DocEvent::Text(t.into_string()),
        pulldown_cmark::Event::Code(t) => DocEvent::Code(t.into_string()),
        _ => DocEvent::Other,
    }).collect()
}

/// Every heading the extractor yields keeps a raw level between 1 and 6
/// whenever every heading-start event in the stream carries one.
pub proof fn lemma_extracted_levels(evs: Seq<DocEvent>)
    requires
        forall|i: int|
            0 <= i < evs.len() ==> ((#[trigger] evs[i]) matches DocEvent::HeadingStart(l) ==> 1
                <= l <= 6),
    ensures
        forall|k: int|
            0 <= k < extracted(evs).len() ==> 1 <= (#[trigger] extracted(evs)[k]).0 <= 6,
    decreases evs.len(),
{
    if evs.len() > 0 {
        match evs[0] {
            DocEvent::HeadingStart(l) => {
                let rest = evs.skip(1);
                lemma_region_len_bounds(rest);
                let tail = rest.skip(region_len(rest));
                assert(forall|i: int|
                    0 <= i < tail.len() ==> tail[i] == evs[i + 1 + region_len(rest)]);
                lemma_extracted_levels(tail);
                assert(extracted(evs) == seq![(l, region_text(rest))] + extracted(tail));
            },
            _ => {
                lemma_extracted_levels(evs.skip(1));
                assert(extracted(evs) == extracted(evs.skip(1)));
            },
        }
    }
}

/// Scans the event stream once, front to back, and returns the headings
/// in document order.  A document with no headings gives an empty list.
pub fn extract_headings(events: &Vec<DocEvent>) -> (hs: Vec<Heading>)
    ensures
        heading_views(hs@) == extracted(events@),
{
    let mut hs: Vec<Heading> = Vec::new();
    let mut i: usize = 0;
    proof {
        assert(events@.skip(0) =~= events@);
        assert(heading_views(hs@) =~= Seq::<(u32, Seq<char>)>::empty());
        assert(heading_views(hs@) + extracted(events@) =~= extracted(events@));
    }
    while i < events.len()
        invariant
            0 <= i <= events@.len(),
            extracted(events@) == heading_views(hs@) + extracted(events@.skip(i as int)),
        decreases events@.len() - i,
    {
        let ghost here = events@.skip(i as int);
        let ghost hs_old = hs@;
        proof {
            assert(here[0] == events@[i as int]);
            assert(here.skip(1) =~= events@.skip(i as int + 1));
        }
        match &events[i] {
            DocEvent::HeadingStart(l) => {
                let level: u32 = *l;
                let ghost rest = events@.skip(i as int + 1);
                let mut text = String::new();
                let mut j: usize = i + 1;
                proof {
                    assert(text@ + region_text(rest) =~= region_text(rest));
                }
                loop
                    invariant_except_break
                        i + 1 <= j <= events@.len(),
                        rest == events@.skip(i as int + 1),
                        text@ + region_text(events@.skip(j as int)) == region_text(rest),
                        region_len(rest) == j - i - 1 + region_len(events@.skip(j as int)),
                    ensures
                        text@ == region_text(rest),
                        j == i + 1 + region_len(rest),
                        i < j <= events@.len(),
                    decreases events@.len() - j,
                {
                    if j >= events.len() {
                        proof {
                            assert(events@.skip(j as int).len() == 0);
                            assert(text@ + region_text(events@.skip(j as int)) =~= text@);
                        }
                        break ;
                    }
                    let ghost at_j = events@.skip(j as int);
                    proof {
                        assert(at_j[0] == events@[j as int]);
                        assert(at_j.skip(1) =~= events@.skip(j as int + 1));
                    }
                    match &events[j] {
                        DocEvent::HeadingEnd => {
                            proof {
                                assert(region_len(at_j) == 1);
                                assert(region_text(at_j) =~= Seq::<char>::empty());
                                assert(text@ + Seq::<char>::empty() =~= text@);
                            }
                            j += 1;
                            break ;
                        },
                        DocEvent::Text(s) => {
                            let ghost t_old = text@;
                            text.append(s.as_str());
                            proof {
                                assert(region_text(at_j) == s@ + region_text(at_j.skip(1)));
                                assert((t_old + s@) + region_text(at_j.skip(1)) =~= t_old + (s@
                                    + region_text(at_j.skip(1))));
                            }
                        },
                        DocEvent::Code(s) => {
                            let ghost t_old = text@;
                            text.append("`");
                            text.append(s.as_str());
                            text.append("`");
                            proof {
                                assert(region_text(at_j) == seq!['`'] + s@ + seq!['`']
                                    + region_text(at_j.skip(1)));
                                assert("`"@ =~= seq!['`']) by {
                                    reveal_strlit("`");
                                }
                                assert(((t_old + "`"@) + s@) + "`"@ =~= t_old + (seq!['`'] + s@
                                    + seq!['`']));
                            }
                        },
                        _ => {
                            proof {
                                assert(region_text(at_j) == region_text(at_j.skip(1)));
                                assert(region_len(at_j) == 1 + region_len(at_j.skip(1)));
                            }
                        },
                    }
                    j += 1;
                }
                hs.push(Heading { level, text });
                proof {
                    assert(extracted(here) == seq![(level, region_text(rest))] + extracted(
                        rest.skip(region_len(rest)),
                    ));
                    assert(rest.skip(region_len(rest)) =~= events@.skip(j as int));
                    assert(heading_views(hs@) =~= heading_views(hs_old) + seq![
                        (level, region_text(rest)),
                    ]);
                    assert((heading_views(hs_old) + seq![(level, region_text(rest))]) + extracted(
                        events@.skip(j as int),
                    ) =~= heading_views(hs_old) + (seq![(level, region_text(rest))] + extracted(
                        events@.skip(j as int),
                    )));
                }
                i = j;
            },
            _ => {
                proof {
                    assert(extracted(here) == extracted(here.skip(1)));
                }
                i += 1;
            },
        }
    }
    proof {
        assert(events@.skip(events@.len() as int) =~= Seq::<DocEvent>::empty());
        assert(heading_views(hs@) + Seq::<(u32, Seq<char>)>::empty() =~= heading_views(hs@));
    }
    hs
}

} // verus!
