//! The text reports the command line prints: page snapshots, page
//! inspections and the tab list.

use vstd::prelude::*;
use crate::cdp::{is_page, targets_view, TargetInfo, TargetView};
use crate::text::{dec_nat, push_str, push_u128};

verus! {

/// The name for what `{:?}` makes of a text: the text quoted, with the
/// characters that need it escaped.
pub uninterp spec fn debug_quoted(s: Seq<char>) -> Seq<char>;

/// Formats `s` with `{:?}`, that is `<str as Debug>::fmt`. Claimed: the
/// result is a function of the text alone, named by `debug_quoted`. The
/// escaping rules themselves are not stated.
#[verifier::external_body]
fn debug_text(s: &str) -> (r: String)
    ensures
        r@ == debug_quoted(s@),
{
    format!("{:?}", s)
}

/// The text of an optional field, empty when absent.
pub open spec fn or_empty(o: Option<String>) -> Seq<char> {
    match o {
        Some(s) => s@,
        None => Seq::empty(),
    }
}

/// The text of an optional field, `d` when absent.
pub open spec fn or_default(o: Option<String>, d: Seq<char>) -> Seq<char> {
    match o {
        Some(s) => s@,
        None => d,
    }
}

fn push_or(out: &mut String, o: &Option<String>, d: &str)
    ensures
        final(out)@ == old(out)@ + or_default(*o, d@),
{
    match o {
        Some(s) => push_str(out, s.as_str()),
        None => push_str(out, d),
    }
}

// ---------------------------------------------------------------------------
// Elements
// ---------------------------------------------------------------------------

/// An interactive element of a snapshot or inspection: its reference, kind,
/// label and link target, each absent when the page gave none.
pub struct ElementRow {
    pub reference: Option<String>,
    pub kind: Option<String>,
    pub text: Option<String>,
    pub href: Option<String>,
}

/// ` -> href` when the element links somewhere.
pub open spec fn href_suffix(h: Option<String>) -> Seq<char> {
    if or_empty(h).len() > 0 {
        " -> "@ + or_empty(h)
    } else {
        Seq::empty()
    }
}

/// The line of one element: `@ref kind "label"`, with the link target when
/// `with_href`.
pub open spec fn element_line(e: ElementRow, with_href: bool) -> Seq<char> {
    "@"@ + or_default(e.reference, "?"@) + " "@ + or_default(e.kind, "el"@) + " "@
        + debug_quoted(or_empty(e.text)) + (if with_href { href_suffix(e.href) } else { Seq::empty() })
        + "\n"@
}

/// The lines of all elements, in order.
pub open spec fn element_lines(es: Seq<ElementRow>, with_href: bool) -> Seq<char>
    decreases es.len(),
{
    if es.len() == 0 {
        Seq::empty()
    } else {
        element_lines(es.drop_last(), with_href) + element_line(es.last(), with_href)
    }
}

fn push_element(out: &mut String, e: &ElementRow, with_href: bool)
    ensures
        final(out)@ == old(out)@ + element_line(*e, with_href),
{
    let ghost start = out@;
    push_str(out, "@");
    push_or(out, &e.reference, "?");
    push_str(out, " ");
    push_or(out, &e.kind, "el");
    push_str(out, " ");
    let label = match &e.text {
        Some(t) => debug_text(t.as_str()),
        None => debug_text(""),
    };
    proof {
        reveal_strlit("");
        assert(""@ =~= or_empty(e.text) || e.text is Some);
    }
    push_str(out, label.as_str());
    let ghost before_href = out@;
    if with_href {
        match &e.href {
            Some(h) => {
                if crate::text::chars_of(h.as_str()).len() > 0 {
                    push_str(out, " -> ");
                    push_str(out, h.as_str());
                }
            },
            None => {},
        }
    }
    push_str(out, "\n");
    proof {
        reveal_strlit("@");
        reveal_strlit(" ");
        reveal_strlit("\n");
        reveal_strlit(" -> ");
        assert(out@ =~= start + element_line(*e, with_href));
    }
}

fn push_elements(out: &mut String, es: &[ElementRow], with_href: bool)
    ensures
        final(out)@ == old(out)@ + element_lines(es@, with_href),
{
    let ghost start = out@;
    let mut i: usize = 0;
    while i < es.len()
        invariant
            i <= es@.len(),
            out@ == start + element_lines(es@.take(i as int), with_href),
        decreases es@.len() - i,
    {
        push_element(out, &es[i], with_href);
        proof {
            assert(es@.take(i as int + 1).drop_last() =~= es@.take(i as int));
            assert(es@.take(i as int + 1).last() == es@[i as int]);
        }
        i = i + 1;
    }
    assert(es@.take(es@.len() as int) =~= es@);
}

// ---------------------------------------------------------------------------
// Snapshot
// ---------------------------------------------------------------------------

/// A page snapshot: its URL, title and interactive elements.
pub struct SnapshotReport {
    pub url: Option<String>,
    pub title: Option<String>,
    pub elements: Vec<ElementRow>,
}

/// The printed snapshot.
pub open spec fn snapshot_text_spec(r: SnapshotReport) -> Seq<char> {
    "url: "@ + or_empty(r.url) + "\n"@ + "title: "@ + or_empty(r.title) + "\n\n"@
        + element_lines(r.elements@, false)
}

/// The snapshot as the user reads it.
pub fn snapshot_text(r: &SnapshotReport) -> (s: String)
    ensures
        s@ == snapshot_text_spec(*r),
{
    let mut out = String::new();
    push_str(&mut out, "url: ");
    push_or(&mut out, &r.url, "");
    push_str(&mut out, "\n");
    push_str(&mut out, "title: ");
    push_or(&mut out, &r.title, "");
    push_str(&mut out, "\n\n");
    push_elements(&mut out, r.elements.as_slice(), false);
    proof {
        reveal_strlit("");
        assert(out@ =~= snapshot_text_spec(*r));
    }
    out
}

// ---------------------------------------------------------------------------
// Inspection
// ---------------------------------------------------------------------------

/// A page inspection: location, state, the query it answers, matching
/// text, headings and interactive elements.
pub struct InspectReport {
    pub url: Option<String>,
    pub title: Option<String>,
    pub ready_state: Option<String>,
    pub query: Option<String>,
    pub text: Option<String>,
    pub headings: Vec<Option<String>>,
    pub elements: Vec<ElementRow>,
}

/// The heading lines, `- heading` each.
pub open spec fn heading_lines(hs: Seq<Option<String>>) -> Seq<char>
    decreases hs.len(),
{
    if hs.len() == 0 {
        Seq::empty()
    } else {
        heading_lines(hs.drop_last()) + "- "@ + or_empty(hs.last()) + "\n"@
    }
}

/// `text` framed by `head` and a blank line, when it is not empty.
pub open spec fn section(head: Seq<char>, text: Seq<char>) -> Seq<char> {
    if text.len() > 0 {
        head + text + "\n\n"@
    } else {
        Seq::empty()
    }
}

/// The printed inspection.
pub open spec fn inspect_text_spec(r: InspectReport) -> Seq<char> {
    "url: "@ + or_empty(r.url) + "\n"@
        + "title: "@ + or_empty(r.title) + "\n"@
        + "readyState: "@ + or_empty(r.ready_state) + "\n\n"@
        + section("query: "@, or_empty(r.query))
        + section("text:\n"@, or_empty(r.text))
        + (if r.headings@.len() > 0 { "headings:\n"@ + heading_lines(r.headings@) + "\n"@ } else { Seq::empty() })
        + (if r.elements@.len() > 0 { "elements:\n"@ + element_lines(r.elements@, true) } else { Seq::empty() })
}

fn push_section(out: &mut String, head: &str, text: &Option<String>)
    ensures
        final(out)@ == old(out)@ + section(head@, or_empty(*text)),
{
    match text {
        Some(t) => {
            if crate::text::chars_of(t.as_str()).len() > 0 {
                push_str(out, head);
                push_str(out, t.as_str());
                push_str(out, "\n\n");
                proof {
                    reveal_strlit("\n\n");
                }
            } else {
                assert(old(out)@ + section(head@, or_empty(*text)) =~= old(out)@);
            }
        },
        None => {
            assert(old(out)@ + section(head@, or_empty(*text)) =~= old(out)@);
        },
    }
}

fn push_headings(out: &mut String, hs: &[Option<String>])
    ensures
        final(out)@ == old(out)@ + heading_lines(hs@),
{
    let ghost start = out@;
    let mut i: usize = 0;
    while i < hs.len()
        invariant
            i <= hs@.len(),
            out@ == start + heading_lines(hs@.take(i as int)),
        decreases hs@.len() - i,
    {
        let ghost before = out@;
        push_str(out, "- ");
        push_or(out, &hs[i], "");
        push_str(out, "\n");
        proof {
            reveal_strlit("");
            reveal_strlit("- ");
            reveal_strlit("\n");
            assert(hs@.take(i as int + 1).drop_last() =~= hs@.take(i as int));
            assert(hs@.take(i as int + 1).last() == hs@[i as int]);
            assert(out@ =~= before + "- "@ + or_empty(hs@[i as int]) + "\n"@);
        }
        i = i + 1;
    }
    assert(hs@.take(hs@.len() as int) =~= hs@);
}

/// The inspection as the user reads it.
pub fn inspect_text(r: &InspectReport) -> (s: String)
    ensures
        s@ == inspect_text_spec(*r),
{
    let mut out = String::new();
    push_str(&mut out, "url: ");
    push_or(&mut out, &r.url, "");
    push_str(&mut out, "\n");
    push_str(&mut out, "title: ");
    push_or(&mut out, &r.title, "");
    push_str(&mut out, "\n");
    push_str(&mut out, "readyState: ");
    push_or(&mut out, &r.ready_state, "");
    push_str(&mut out, "\n\n");
    let ghost head = out@;
    push_section(&mut out, "query: ", &r.query);
    push_section(&mut out, "text:\n", &r.text);
    let ghost mid = out@;
    if r.headings.len() > 0 {
        push_str(&mut out, "headings:\n");
        push_headings(&mut out, r.headings.as_slice());
        push_str(&mut out, "\n");
    }
    let ghost after_headings = out@;
    if r.elements.len() > 0 {
        push_str(&mut out, "elements:\n");
        push_elements(&mut out, r.elements.as_slice(), true);
    }
    proof {
        reveal_strlit("");
        assert(out@ =~= inspect_text_spec(*r));
    }
    out
}

// ---------------------------------------------------------------------------
// Tabs
// ---------------------------------------------------------------------------

/// How many page targets there are among `v`.
pub open spec fn page_count(v: Seq<TargetView>) -> nat
    decreases v.len(),
{
    if v.len() == 0 {
        0
    } else {
        page_count(v.drop_last()) + (if is_page(v.last()) { 1nat } else { 0nat })
    }
}

/// The line of the tab numbered `i`: `i id "title" "url"`.
pub open spec fn tab_line(i: nat, t: TargetView) -> Seq<char> {
    dec_nat(i) + " "@ + (match t.target_id {
        Some(id) => id,
        None => Seq::empty(),
    }) + " "@ + debug_quoted(t.title) + " "@ + debug_quoted(t.url) + "\n"@
}

/// The lines of the page targets among `v`, numbered from 0 in order.
pub open spec fn tab_lines(v: Seq<TargetView>) -> Seq<char>
    decreases v.len(),
{
    if v.len() == 0 {
        Seq::empty()
    } else if is_page(v.last()) {
        tab_lines(v.drop_last()) + tab_line(page_count(v.drop_last()), v.last())
    } else {
        tab_lines(v.drop_last())
    }
}

fn is_page_exec(t: &TargetInfo) -> (r: bool)
    ensures
        r == is_page(t@),
{
    match &t.kind {
        Some(k) => {
            let cs = crate::text::chars_of(k.as_str());
            crate::text::is_text(cs.as_slice(), "page")
        },
        None => false,
    }
}

/// The tab list: each page target numbered, with its id, title and URL.
pub fn tabs_text(xs: &[TargetInfo]) -> (s: String)
    ensures
        s@ == tab_lines(targets_view(xs@)),
{
    let ghost v = targets_view(xs@);
    let mut out = String::new();
    let mut n: usize = 0;
    let mut i: usize = 0;
    while i < xs.len()
        invariant
            i <= xs@.len(),
            v == targets_view(xs@),
            n == page_count(v.take(i as int)),
            n <= i,
            out@ == tab_lines(v.take(i as int)),
        decreases xs@.len() - i,
    {
        proof {
            assert(v.take(i as int + 1).drop_last() =~= v.take(i as int));
            assert(v.take(i as int + 1).last() == v[i as int]);
            assert(v[i as int] == xs@[i as int]@);
        }
        if is_page_exec(&xs[i]) {
            let ghost before = out@;
            let t = &xs[i];
            push_u128(&mut out, n as u128);
            push_str(&mut out, " ");
            match &t.target_id {
                Some(id) => push_str(&mut out, id.as_str()),
                None => {},
            }
            push_str(&mut out, " ");
            let title = debug_text(t.title.as_str());
            push_str(&mut out, title.as_str());
            push_str(&mut out, " ");
            let url = debug_text(t.url.as_str());
            push_str(&mut out, url.as_str());
            push_str(&mut out, "\n");
            proof {
                reveal_strlit(" ");
                reveal_strlit("\n");
                assert(out@ =~= before + tab_line(n as nat, v[i as int]));
            }
            n = n + 1;
        }
        i = i + 1;
    }
    assert(v.take(xs@.len() as int) =~= v);
    out
}

} // verus!
