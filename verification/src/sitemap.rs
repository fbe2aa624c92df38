//! The links of an XML sitemap: the text of its `loc` elements, read with `quick_xml`.

use vstd::prelude::*;

use crate::links::{law_links_have_no_fragment, link_set, links_from_references};
use crate::text::string_views;
use crate::url_set::UrlSet;

verus! {

/// `quick_xml`'s pull parser.
#[verifier::external_type_specification]
#[verifier::external_body]
#[verifier::reject_recursive_types(R)]
pub struct ExXmlReader<R>(quick_xml::reader::Reader<R>);

/// One event of the parser, as the sitemap reading needs it.
pub enum XmlEvent {
    /// An opening tag, with its qualified name.
    Start(Vec<u8>),
    /// A closing tag, with its qualified name.
    End(Vec<u8>),
    /// Character data, unescaped; `None` where unescaping fails.
    Text(Option<String>),
    /// The end of the document.
    Eof,
    /// Any other event: empty elements, CDATA, comments, declarations, processing
    /// instructions, doctypes.
    Other,
    /// A syntax error.
    Invalid,
}

/// The meaning of an event.
pub enum XmlToken {
    Start(Seq<u8>),
    End(Seq<u8>),
    Text(Option<Seq<char>>),
    Eof,
    Other,
    Invalid,
}

impl View for XmlEvent {
    type V = XmlToken;

    open spec fn view(&self) -> XmlToken {
        match self {
            XmlEvent::Start(n) => XmlToken::Start(n@),
            XmlEvent::End(n) => XmlToken::End(n@),
            XmlEvent::Text(t) => XmlToken::Text(t.deep_view()),
            XmlEvent::Eof => XmlToken::Eof,
            XmlEvent::Other => XmlToken::Other,
            XmlEvent::Invalid => XmlToken::Invalid,
        }
    }
}

/// The events that a `quick_xml` reader over `xml`, trimming text, yields in turn, up to and
/// including the first end of document or syntax error.
pub uninterp spec fn xml_event_stream(xml: Seq<char>) -> Seq<XmlToken>;

/// The events that `reader` has still to yield, up to and including the first end of
/// document or syntax error.
pub uninterp spec fn xml_pending(reader: quick_xml::reader::Reader<&[u8]>) -> Seq<XmlToken>;

/// `Reader::from_str(xml)` with `Reader::trim_text(true)`. The contract names what the reader
/// yields; it says nothing of how the text is tokenised.
#[verifier::external_body]
fn xml_reader<'a>(xml: &'a str) -> (r: quick_xml::reader::Reader<&'a [u8]>)
    ensures
        xml_pending(r) == xml_event_stream(xml@),
{
    let mut r = quick_xml::reader::Reader::from_str(xml);
    r.trim_text(true);
    r
}

/// `Reader::read_event_into`, with `QName::as_ref` on tag names and `BytesText::unescape`
/// on text. The contract says that each call yields the next pending event, and that once
/// the events are exhausted the reader yields the end of document, as its source shows (after
/// an end of document or an error it stays in its exit state).
#[verifier::external_body]
fn xml_next(reader: &mut quick_xml::reader::Reader<&[u8]>) -> (e: XmlEvent)
    ensures
        xml_pending(*old(reader)).len() > 0 ==> e@ == xml_pending(*old(reader))[0] && xml_pending(
            *final(reader),
        ) == xml_pending(*old(reader)).drop_first(),
        xml_pending(*old(reader)).len() == 0 ==> e@ == XmlToken::Eof && xml_pending(
            *final(reader),
        ).len() == 0,
{
    let mut buf: Vec<u8> = Vec::new();
    match reader.read_event_into(&mut buf) {
        Ok(quick_xml::events::Event::Start(t)) => XmlEvent::Start(t.name().as_ref().to_vec()),
        Ok(quick_xml::events::Event::End(t)) => XmlEvent::End(t.name().as_ref().to_vec()),
        Ok(quick_xml::events::Event::Text(t)) => XmlEvent::Text(
            t.unescape().ok().map(|s| s.into_owned()),
        ),
        Ok(quick_xml::events::Event::Eof) => XmlEvent::Eof,
        Ok(_) => XmlEvent::Other,
        Err(_) => XmlEvent::Invalid,
    }
}

/// The tag name `loc`.
pub open spec fn loc_tag() -> Seq<u8> {
    seq![0x6cu8, 0x6fu8, 0x63u8]
}

/// The texts inside `loc` elements among `events`, where `reading` says whether a `loc`
/// element is open; the reading stops at the end of document. `None` where a syntax error
/// comes first, or a text inside `loc` cannot be unescaped.
pub open spec fn loc_texts(events: Seq<XmlToken>, reading: bool) -> Option<Seq<Seq<char>>>
    decreases events.len(),
{
    if events.len() == 0 {
        Some(seq![])
    } else {
        let rest = events.drop_first();
        match events[0] {
            XmlToken::Eof => Some(seq![]),
            XmlToken::Invalid => None,
            XmlToken::Start(n) => loc_texts(rest, if n == loc_tag() {
                true
            } else {
                reading
            }),
            XmlToken::End(n) => loc_texts(rest, if n == loc_tag() {
                false
            } else {
                reading
            }),
            XmlToken::Text(t) => if !reading {
                loc_texts(rest, reading)
            } else {
                match t {
                    None => None,
                    Some(s) => match loc_texts(rest, reading) {
                        Some(more) => Some(seq![s] + more),
                        None => None,
                    },
                }
            },
            XmlToken::Other => loc_texts(rest, reading),
        }
    }
}

/// Whether a tag name is `loc`.
fn is_loc(name: &Vec<u8>) -> (r: bool)
    ensures
        r == (name@ == loc_tag()),
{
    let r = name.len() == 3 && name[0] == 0x6c && name[1] == 0x6f && name[2] == 0x63;
    proof {
        if r {
            assert(name@ =~= loc_tag());
        }
    }
    r
}

/// The texts of the `loc` elements of a sitemap, in order; `None` where the reading fails.
pub fn xml_loc_texts(xml: &str) -> (r: Option<Vec<String>>)
    ensures
        match r {
            Some(v) => loc_texts(xml_event_stream(xml@), false) == Some(string_views(v@)),
            None => loc_texts(xml_event_stream(xml@), false) is None,
        },
{
    let mut reader = xml_reader(xml);
    let mut urls: Vec<String> = Vec::new();
    let mut reading_loc = false;
    let ghost all = xml_event_stream(xml@);
    assert(string_views(urls@) + seq![] =~= seq![]);
    loop
        invariant
            all == xml_event_stream(xml@),
            match loc_texts(xml_pending(reader), reading_loc) {
                Some(rest) => loc_texts(all, false) == Some(string_views(urls@) + rest),
                None => loc_texts(all, false) is None,
            },
        decreases xml_pending(reader).len(),
    {
        let e = xml_next(&mut reader);
        match e {
            XmlEvent::Eof => {
                assert(string_views(urls@) + seq![] =~= string_views(urls@));
                return Some(urls);
            },
            XmlEvent::Invalid => {
                return None;
            },
            XmlEvent::Start(name) => {
                if is_loc(&name) {
                    reading_loc = true;
                }
            },
            XmlEvent::End(name) => {
                if is_loc(&name) {
                    reading_loc = false;
                }
            },
            XmlEvent::Text(t) => {
                if reading_loc {
                    match t {
                        Some(s) => {
                            let ghost before = urls@;
                            let ghost sv = s@;
                            urls.push(s);
                            assert(string_views(urls@) =~= string_views(before).push(sv));
                            assert(string_views(before) + (seq![sv] + loc_texts(
                                xml_pending(reader),
                                reading_loc,
                            )->0) =~= string_views(urls@) + loc_texts(
                                xml_pending(reader),
                                reading_loc,
                            )->0);
                        },
                        None => {
                            return None;
                        },
                    }
                }
            },
            XmlEvent::Other => {},
        }
    }
}

/// The links of a sitemap: the texts of its `loc` elements, followed as
/// `links_from_references` says; `None` where the sitemap cannot be read.
pub open spec fn xml_links(xml: Seq<char>) -> Option<Set<Seq<char>>> {
    match loc_texts(xml_event_stream(xml), false) {
        Some(texts) => Some(link_set(texts)),
        None => None,
    }
}

/// The links of a sitemap: the text of every `loc` element that passes the extension filter
/// and stands for a URL on the site.
pub fn get_links_from_xml(xml: &str) -> (r: UrlSet)
    requires
        loc_texts(xml_event_stream(xml@), false) is Some,
    ensures
        xml_links(xml@) == Some(r@),
{
    match xml_loc_texts(xml) {
        Some(texts) => links_from_references(&texts),
        None => UrlSet::new(),
    }
}

/// The links of a sitemap; `None` where it holds a syntax error, or a `loc` text that cannot
/// be unescaped.
pub fn try_get_links_from_xml(xml: &str) -> (r: Option<UrlSet>)
    ensures
        match r {
            Some(s) => xml_links(xml@) == Some(s@),
            None => xml_links(xml@) is None,
        },
{
    match xml_loc_texts(xml) {
        Some(_) => Some(get_links_from_xml(xml)),
        None => None,
    }
}

/// No link found in a sitemap has a fragment.
pub proof fn law_xml_links_have_no_fragment(xml: Seq<char>, n: Seq<char>)
    requires
        xml_links(xml) matches Some(links) && links.contains(n),
    ensures
        !n.contains('#'),
{
    law_links_have_no_fragment(loc_texts(xml_event_stream(xml), false)->0, n);
}

} // verus!
