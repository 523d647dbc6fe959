//! Rendering the normalized, slugged heading outline into a TOC fragment.
//!
//! Every heading becomes one bullet line `<indent>* [text](#slug)` whose
//! indentation is two spaces per normalized depth step.  The lines are
//! wrapped in a fixed container and re-serialized through the same
//! general-purpose markup serializer the host uses for the rest of the
//! document, so the fragment's formatting stays canonical.

use vstd::prelude::*;

use crate::events::Heading;
use crate::events::heading_views;
use crate::levels::lemma_no_level_skips;
use crate::levels::normalize_levels;
use crate::levels::normalize_spec;
use crate::slugs::string_views;

verus! {

/// Serialization failed: the fragment could not be turned back into
/// valid markup.  Fatal for the current document.
#[derive(Clone, Copy, PartialEq, Eq, Structural, Debug)]
pub enum RenderError {
    Serialize,
}

/// The raw levels of a heading sequence.
pub open spec fn hlevels(hs: Seq<(u32, Seq<char>)>) -> Seq<u32> {
    hs.map_values(|h: (u32, Seq<char>)| h.0)
}

/// The texts of a heading sequence.
pub open spec fn htexts(hs: Seq<(u32, Seq<char>)>) -> Seq<Seq<char>> {
    hs.map_values(|h: (u32, Seq<char>)| h.1)
}

/// The indentation of a bullet line: two spaces per depth step below the
/// top level.
pub open spec fn indent_of(level: u32) -> Seq<char> {
    if level >= 1 {
        Seq::new((2 * (level - 1)) as nat, |k: int| ' ')
    } else {
        Seq::empty()
    }
}

/// One rendered bullet line: indentation, the bullet marker, and the
/// heading text linked to its anchor slug.
pub open spec fn line_of(level: u32, text: Seq<char>, slug: Seq<char>) -> Seq<char> {
    indent_of(level) + "* ["@ + text + "](#"@ + slug + ")\n"@
}

/// The list body of the fragment: one line per heading, in document
/// order.  An empty heading sequence gives an empty body.
pub open spec fn toc_body(levels: Seq<u32>, texts: Seq<Seq<char>>, slugs: Seq<Seq<char>>) -> Seq<
    char,
>
    decreases levels.len(),
{
    if levels.len() == 0 {
        Seq::empty()
    } else {
        line_of(levels[0], texts[0], slugs[0]) + toc_body(
            levels.skip(1),
            texts.skip(1),
            slugs.skip(1),
        )
    }
}

/// The container's opening marker, with its title line.
pub open spec fn open_marker() -> Seq<char> {
    "<div id=\"toc\"><p class=\"toc-title\">Contents:</p>\n"@
}

/// The container's closing marker.
pub open spec fn close_marker() -> Seq<char> {
    "</div>\n"@
}

/// The exact text that the serializer produces for a TOC fragment built
/// from the given open marker, list body and close marker.
pub uninterp spec fn reserialized(open: Seq<char>, body: Seq<char>, close: Seq<char>) -> Seq<char>;

/// Relies on `pulldown_cmark::Parser::new` and
/// `pulldown_cmark_to_cmark::cmark`: the list body is re-parsed as
/// markup, wrapped between the two markers (passed through as raw markup
/// events), and re-serialized.  Both are pure functions of their input,
/// so the produced text is named by `reserialized`.  The serializer can
/// fail only when its output sink fails; writing into a `String` never
/// does, so the call always succeeds.  It writes a raw-markup event's
/// text verbatim, with nothing before the first event and nothing after
/// the last, so the result carries the open marker byte-for-byte at its
/// start and the close marker byte-for-byte at its end.
#[verifier::external_body]
fn reserialize_wrapped(open: &str, body: &str, close: &str) -> (r: Result<String, RenderError>)
    ensures
        r is Ok,
        r matches Ok(s) ==> s@ == reserialized(open@, body@, close@),
        r matches Ok(s) ==> s@.len() >= open@.len() + close@.len(),
        r matches Ok(s) ==> s@.subrange(0, open@.len() as int) == open@,
        r matches Ok(s) ==> s@.subrange(s@.len() - close@.len(), s@.len() as int) == close@,
{
    let events = std::iter::once(pulldown_cmark::Event::Html(open.into())).chain(
        pulldown_cmark::Parser::new(body),
    ).chain(std::iter::once(pulldown_cmark::Event::Html(close.into())));
    let mut out = String::new();
    match pulldown_cmark_to_cmark::cmark(events, &mut out, None) {
        Ok(_) => Ok(out),
        Err(_) => Err(RenderError::Serialize),
    }
}

/// The whole TOC fragment of a heading sequence with its slugs: the
/// normalized outline's list body between the two container markers, as
/// the serializer writes it.
pub open spec fn toc_fragment(hs: Seq<(u32, Seq<char>)>, slugs: Seq<Seq<char>>) -> Seq<char> {
    reserialized(open_marker(), toc_body(normalize_spec(hlevels(hs)), htexts(hs), slugs), close_marker())
}

/// The position of the last `#` in `line`, or `-1` if there is none.
pub open spec fn last_hash(line: Seq<char>) -> int
    decreases line.len(),
{
    if line.len() == 0 {
        -1
    } else if line.last() == '#' {
        line.len() - 1
    } else {
        last_hash(line.drop_last())
    }
}

/// The anchor that a rendered bullet line links to: what stands between
/// the line's last `#` and its closing `)`.
pub open spec fn link_target_of_line(line: Seq<char>) -> Seq<char> {
    line.subrange(last_hash(line) + 1, line.len() - 2)
}

proof fn lemma_last_hash_append(x: Seq<char>, y: Seq<char>)
    requires
        forall|k: int| 0 <= k < y.len() ==> #[trigger] y[k] != '#',
    ensures
        last_hash(x + y) == last_hash(x),
    decreases y.len(),
{
    if y.len() == 0 {
        assert(x + y =~= x);
    } else {
        assert((x + y).last() == y.last());
        assert((x + y).drop_last() =~= x + y.drop_last());
        lemma_last_hash_append(x, y.drop_last());
    }
}

/// The provable core of the round trip: re-reading a rendered bullet
/// line on its own gives back exactly the slug that was assigned to the
/// heading, as the line's link target.  (The serialized fragment's final
/// text is the serializer's, so the full round trip through the external
/// parser is exercised by tests, not stated here.)
pub proof fn lemma_line_round_trip(level: u32, text: Seq<char>, slug: Seq<char>)
    requires
        forall|k: int| 0 <= k < slug.len() ==> #[trigger] slug[k] != '#',
    ensures
        link_target_of_line(line_of(level, text, slug)) == slug,
{
    reveal_strlit("* [");
    reveal_strlit("](#");
    reveal_strlit(")\n");
    let line = line_of(level, text, slug);
    let head = indent_of(level) + "* ["@ + text + "](#"@;
    let tail = slug + ")\n"@;
    assert(line =~= head + tail);
    assert(head.last() == '#');
    assert(forall|k: int| 0 <= k < tail.len() ==> #[trigger] tail[k] != '#');
    lemma_last_hash_append(head, tail);
    assert(last_hash(head) == head.len() - 1);
    assert(link_target_of_line(line) =~= slug);
}

/// Indentation is exactly `2 * (level - 1)` space characters, and the
/// bullet marker follows immediately after them.
pub proof fn lemma_indentation(level: u32, text: Seq<char>, slug: Seq<char>)
    requires
        level >= 1,
    ensures
        line_of(level, text, slug).len() > 2 * (level - 1),
        forall|k: int|
            0 <= k < 2 * (level - 1) ==> #[trigger] line_of(level, text, slug)[k] == ' ',
        line_of(level, text, slug)[2 * (level - 1)] == '*',
{
    reveal_strlit("* [");
    assert(indent_of(level).len() == 2 * (level - 1));
    assert(forall|k: int| 0 <= k < 2 * (level - 1) ==> #[trigger] indent_of(level)[k] == ' ');
}

/// Renders one bullet line of the outline from an already-normalized
/// level, the heading text and its slug.
pub fn render_line(level: u32, text: &str, slug: &str) -> (line: String)
    requires
        1 <= level,
    ensures
        line@ == line_of(level, text@, slug@),
{
    let mut line = String::new();
    let width: u64 = 2 * ((level - 1) as u64);
    let mut k: u64 = 0;
    proof {
        assert(line@ =~= Seq::new(0nat, |x: int| ' '));
    }
    while k < width
        invariant
            k <= width,
            width == 2 * (level - 1),
            line@ == Seq::new(k as nat, |x: int| ' '),
        decreases width - k,
    {
        line.append(" ");
        proof {
            reveal_strlit(" ");
            assert(line@ =~= Seq::new((k + 1) as nat, |x: int| ' '));
        }
        k += 1;
    }
    proof {
        assert(line@ =~= indent_of(level));
    }
    line.append("* [");
    line.append(text);
    line.append("](#");
    line.append(slug);
    line.append(")\n");
    proof {
        assert(line@ =~= line_of(level, text@, slug@));
    }
    line
}

/// Renders the full TOC fragment for the given headings and their
/// parallel slugs: normalizes the raw levels, writes one bullet line per
/// heading, and hands the wrapped list to the markup serializer.  A
/// serialization failure would be fatal for the document, but with the
/// in-memory sink used here it cannot occur, so success is promised; the
/// fragment always begins with the open marker and ends with the close
/// marker, byte-for-byte.
pub fn build_toc(headings: &Vec<Heading>, slugs: &Vec<String>) -> (r: Result<String, RenderError>)
    requires
        slugs@.len() == headings@.len(),
        forall|i: int| 0 <= i < headings@.len() ==> 1 <= #[trigger] headings@[i].level < u32::MAX,
    ensures
        r is Ok,
        r matches Ok(s) ==> s@ == toc_fragment(heading_views(headings@), string_views(slugs@)),
        r matches Ok(s) ==> s@.len() >= open_marker().len() + close_marker().len(),
        r matches Ok(s) ==> s@.subrange(0, open_marker().len() as int) == open_marker(),
        r matches Ok(s) ==> s@.subrange(s@.len() - close_marker().len(), s@.len() as int)
            == close_marker(),
{
    let ghost hs = heading_views(headings@);
    let mut levels: Vec<u32> = Vec::new();
    let mut i: usize = 0;
    while i < headings.len()
        invariant
            0 <= i <= headings@.len(),
            levels@.len() == i,
            forall|k: int| 0 <= k < headings@.len() ==> 1 <= #[trigger] headings@[k].level
                < u32::MAX,
            forall|k: int| 0 <= k < i ==> levels@[k] == headings@[k].level,
        decreases headings@.len() - i,
    {
        levels.push(headings[i].level);
        i += 1;
    }
    proof {
        assert(levels@ =~= hlevels(hs));
    }
    let norm = normalize_levels(&levels);
    proof {
        lemma_no_level_skips(levels@);
    }
    let ghost nlevels = normalize_spec(hlevels(hs));
    let ghost texts = htexts(hs);
    let ghost sviews = string_views(slugs@);
    let mut body = String::new();
    let mut i: usize = 0;
    proof {
        assert(nlevels.skip(0) =~= nlevels);
        assert(texts.skip(0) =~= texts);
        assert(sviews.skip(0) =~= sviews);
        assert(body@ + toc_body(nlevels, texts, sviews) =~= toc_body(nlevels, texts, sviews));
    }
    while i < headings.len()
        invariant
            0 <= i <= headings@.len(),
            hs == heading_views(headings@),
            nlevels == normalize_spec(hlevels(hs)),
            texts == htexts(hs),
            sviews == string_views(slugs@),
            norm@ == nlevels,
            nlevels.len() == headings@.len(),
            texts.len() == headings@.len(),
            sviews.len() == headings@.len(),
            slugs@.len() == headings@.len(),
            forall|k: int| 0 <= k < headings@.len() ==> 1 <= #[trigger] nlevels[k],
            toc_body(nlevels, texts, sviews) == body@ + toc_body(
                nlevels.skip(i as int),
                texts.skip(i as int),
                sviews.skip(i as int),
            ),
        decreases headings@.len() - i,
    {
        let ghost body_old = body@;
        let line = render_line(norm[i], headings[i].text.as_str(), slugs[i].as_str());
        body.append(line.as_str());
        proof {
            assert(nlevels.skip(i as int)[0] == nlevels[i as int]);
            assert(texts.skip(i as int)[0] == texts[i as int]);
            assert(sviews.skip(i as int)[0] == sviews[i as int]);
            assert(texts[i as int] == headings@[i as int].text@);
            assert(sviews[i as int] == slugs@[i as int]@);
            assert(nlevels.skip(i as int).skip(1) =~= nlevels.skip(i as int + 1));
            assert(texts.skip(i as int).skip(1) =~= texts.skip(i as int + 1));
            assert(sviews.skip(i as int).skip(1) =~= sviews.skip(i as int + 1));
            assert(toc_body(nlevels.skip(i as int), texts.skip(i as int), sviews.skip(i as int))
                == line_of(nlevels[i as int], texts[i as int], sviews[i as int]) + toc_body(
                nlevels.skip(i as int + 1),
                texts.skip(i as int + 1),
                sviews.skip(i as int + 1),
            ));
            assert((body_old + line@) + toc_body(
                nlevels.skip(i as int + 1),
                texts.skip(i as int + 1),
                sviews.skip(i as int + 1),
            ) =~= body_old + (line@ + toc_body(
                nlevels.skip(i as int + 1),
                texts.skip(i as int + 1),
                sviews.skip(i as int + 1),
            )));
        }
        i += 1;
    }
    proof {
        assert(nlevels.skip(nlevels.len() as int) =~= Seq::<u32>::empty());
        assert(toc_body(
            nlevels.skip(headings@.len() as int),
            texts.skip(headings@.len() as int),
            sviews.skip(headings@.len() as int),
        ) =~= Seq::<char>::empty());
        assert(body@ + Seq::<char>::empty() =~= body@);
    }
    reserialize_wrapped(
        "<div id=\"toc\"><p class=\"toc-title\">Contents:</p>\n",
        body.as_str(),
        "</div>\n",
    )
}

} // verus!
