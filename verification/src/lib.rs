//! A table-of-contents transform for one markup document at a time.
//!
//! The pipeline extracts the document's headings from its event stream,
//! normalizes inconsistent heading depths into a well-formed nested
//! outline, assigns collision-free anchor slugs, renders an indented
//! bullet outline wrapped in a fixed container, and prepends that
//! fragment to the original content.

use vstd::prelude::*;

pub mod events;
pub mod levels;
pub mod render;
pub mod slugs;

pub use events::DocEvent;
pub use events::Heading;
pub use events::extract_headings;
pub use levels::normalize_levels;
pub use render::RenderError;
pub use render::build_toc;
pub use slugs::assign_slugs;

use events::events_of;
use events::extracted;
use events::heading_views;
use events::lemma_extracted_levels;
use events::parse_events;
use render::close_marker;
use render::htexts;
use render::hlevels;
use render::open_marker;
use render::reserialized;
use render::toc_fragment;
use render::toc_body;
use levels::normalize_spec;
use slugs::assigned_slugs;
use slugs::string_views;

verus! {

/// The transform as the host runtime sees it: a named capability object
/// that declares which rendering targets it supports.
#[derive(PartialEq, Eq, Structural)]
pub struct TableOfContents;

impl TableOfContents {
    /// The transform's stable name among the host's other transforms.
    pub fn name(&self) -> (r: &'static str)
        ensures
            r@ == "toc"@,
    {
        "toc"
    }

    /// The transform supports exactly the HTML-like rendering target and
    /// declines every other, so the host skips it instead of failing.
    pub fn supports_renderer(&self, renderer: &str) -> (r: bool)
        ensures
            r == (renderer@ == "html"@),
    {
        let given: String = renderer.to_owned();
        let html: String = "html".to_owned();
        given == html
    }
}

impl Default for TableOfContents {
    fn default() -> (r: Self)
        ensures
            r == (TableOfContents {  }),
    {
        TableOfContents
    }
}

/// What processing one document produces: the serialized TOC fragment of
/// its extracted, slugged headings, then a blank line, then the original
/// content unchanged.
pub open spec fn toc_output(content: Seq<char>) -> Seq<char> {
    let hs = extracted(events_of(content));
    toc_fragment(hs, assigned_slugs(htexts(hs))) + "\n"@ + content
}

/// Prepends the rendered TOC fragment to the original document content,
/// separated by a single blank line; the content itself is unchanged.
pub fn prepend_fragment(fragment: &str, content: &str) -> (r: String)
    ensures
        r@ == fragment@ + "\n"@ + content@,
{
    let mut s = fragment.to_owned();
    s.append("\n");
    s.append(content);
    s
}

/// A document with no headings still gets its container, with an empty
/// list body, and keeps its content unchanged after the prefix.
pub proof fn lemma_empty_outline(content: Seq<char>)
    requires
        extracted(events_of(content)).len() == 0,
    ensures
        toc_output(content) == reserialized(open_marker(), Seq::empty(), close_marker()) + "\n"@
            + content,
{
    let hs = extracted(events_of(content));
    assert(normalize_spec(hlevels(hs)).len() == 0);
    assert(toc_body(normalize_spec(hlevels(hs)), htexts(hs), assigned_slugs(htexts(hs)))
        =~= Seq::<char>::empty());
}

/// Runs the whole pipeline on one document's content: extraction, slug
/// assignment, depth normalization and rendering, in that order, and
/// returns the new content with the TOC fragment prepended.  The
/// pipeline reads the original content only — it is never applied to its
/// own rendered output.  A serialization failure would abort the
/// document, but with the in-memory sink it cannot occur, so the
/// pipeline always succeeds and is a pure function of the content: a
/// document with no headings is a normal input and gets a container with
/// an empty list, never an error.  The result always begins with the
/// container's open marker.
pub fn generate_toc(content: &str) -> (r: Result<String, RenderError>)
    ensures
        r is Ok,
        r matches Ok(s) ==> s@ == toc_output(content@),
        r matches Ok(s) ==> s@.subrange(0, open_marker().len() as int) == open_marker(),
{
    let events = parse_events(content);
    let headings = extract_headings(&events);
    let ghost hs = extracted(events_of(content@));
    proof {
        lemma_extracted_levels(events@);
        assert(forall|k: int|
            0 <= k < headings@.len() ==> (#[trigger] headings@[k]).level == heading_views(
                headings@,
            )[k].0);
    }
    let mut texts: Vec<String> = Vec::new();
    let mut i: usize = 0;
    while i < headings.len()
        invariant
            0 <= i <= headings@.len(),
            texts@.len() == i,
            forall|k: int| 0 <= k < i ==> texts@[k]@ == #[trigger] headings@[k].text@,
        decreases headings@.len() - i,
    {
        texts.push(headings[i].text.clone());
        i += 1;
    }
    proof {
        assert(string_views(texts@) =~= htexts(heading_views(headings@)));
    }
    let slugs = assign_slugs(&texts);
    match build_toc(&headings, &slugs) {
        Ok(fragment) => {
            let out = prepend_fragment(fragment.as_str(), content);
            proof {
                assert(fragment@ == toc_fragment(hs, assigned_slugs(htexts(hs))));
                assert(out@.subrange(0, open_marker().len() as int) =~= fragment@.subrange(
                    0,
                    open_marker().len() as int,
                ));
            }
            Ok(out)
        },
        Err(e) => Err(e),
    }
}

} // verus!
