use vstd::prelude::*;
use quick_xml::events::Event;
use quick_xml::{Error as XmlError, Reader, Writer};
use crate::scan::TokenKind;

verus! {


#[verifier::external_type_specification]
#[verifier::external_body]
pub struct ExEvent<'a>(Event<'a>);

#[verifier::external_type_specification]
#[verifier::external_body]
pub struct ExXmlError(XmlError);

/// One read of markup: its kind, its name (for an element tag) or raw bytes
/// (for a text event), the reader's position after it, and the markup that
/// quick_xml's writer makes of its event (empty where the read failed).
pub struct Token {
    pub kind: TokenKind,
    pub name: Vec<u8>,
    pub end: usize,
    pub markup: Vec<u8>,
}

/// What a quick_xml reader started on `bytes` reads, one entry per read up to
/// and including the first that reports the end of the input or an error:
/// the event's kind, its name or raw text, and the reader's position after it.
pub uninterp spec fn xml_reads(bytes: Seq<u8>) -> Seq<(TokenKind, Seq<u8>, nat)>;

/// What quick_xml's writer, without indentation, writes for each event that
/// a reader started on `bytes` reads (nothing for a failed read).
pub uninterp spec fn xml_written(bytes: Seq<u8>) -> Seq<Seq<u8>>;

/// A read that ends the reading: the end of the input or an error.
pub open spec fn is_final_kind(k: TokenKind) -> bool {
    k is Truncated || k is Malformed
}

/// `r` holds the reads of `bytes`, in order: kind, name or raw text, and
/// position after each, which lies within `bytes`, and the markup written
/// for each; only the last read ends the reading.
pub open spec fn holds_reads(r: Seq<Token>, bytes: Seq<u8>) -> bool {
    &&& r.len() == xml_reads(bytes).len()
    &&& r.len() == xml_written(bytes).len()
    &&& r.len() >= 1
    &&& forall|i: int|
        0 <= i < r.len() ==> ((#[trigger] r[i]).kind, r[i].name@, r[i].end as nat) == xml_reads(
            bytes,
        )[i] && r[i].markup@ == xml_written(bytes)[i]
    &&& forall|i: int| 0 <= i < r.len() ==> (#[trigger] r[i]).end <= bytes.len()
    &&& forall|i: int| 0 <= i < r.len() - 1 ==> !is_final_kind((#[trigger] r[i]).kind)
    &&& is_final_kind(r.last().kind)
}

/// Relies on quick_xml::Reader::from_reader, Reader::read_event,
/// Reader::buffer_position, and on Writer::new, Writer::write_event and
/// Writer::into_inner over a `Vec`: reads the events of `bytes` in order until
/// the end of the input or an error, with the position after each and the
/// markup written for each (named `xml_reads` and `xml_written`).  The
/// writer writes each event on its own, so the markup of a sequence of events
/// is the markup of each, in order.
#[verifier::external_body]
pub(crate) fn read_all(bytes: &[u8]) -> (r: Vec<Token>)
    ensures
        r@.len() == xml_reads(bytes@).len(),
        r@.len() == xml_written(bytes@).len(),
        holds_reads(r@, bytes@),
{
    let mut reader = Reader::from_reader(bytes);
    let mut out = Vec::new();
    loop {
        let read = reader.read_event();
        let (kind, name) = token_of(&read);
        let mut writer = Writer::new(Vec::new());
        if let Ok(e) = &read {
            let _ = writer.write_event(e);
        }
        let end = reader.buffer_position();
        out.push(Token { kind, name, end, markup: writer.into_inner() });
        if matches!(kind, TokenKind::Truncated | TokenKind::Malformed) {
            return out;
        }
    }
}

/// Relies on the variants of quick_xml's `Event` and `Error`: the kind of one
/// read, and its name or raw text; the end of the input counts as cut short.
#[verifier::external_body]
fn token_of(read: &Result<Event, XmlError>) -> (TokenKind, Vec<u8>) {
    match read {
        Ok(Event::Start(b)) => (TokenKind::Start, b.name().0.to_vec()),
        Ok(Event::End(b)) => (TokenKind::End, b.name().0.to_vec()),
        Ok(Event::Empty(b)) => (TokenKind::Empty, b.name().0.to_vec()),
        Ok(Event::Text(b)) => (TokenKind::Text, b.to_vec()),
        Ok(Event::Eof) | Err(XmlError::UnexpectedEof(_)) => (TokenKind::Truncated, vec![]),
        Ok(_) => (TokenKind::Other, vec![]),
        Err(_) => (TokenKind::Malformed, vec![]),
    }
}

/// The text that `String::from_utf8_lossy` makes of a byte sequence.
pub uninterp spec fn utf8_lossy(b: Seq<u8>) -> Seq<char>;

/// Relies on String::from_utf8_lossy: the bytes as text, with each invalid
/// sequence replaced; the result depends on the bytes alone.
#[verifier::external_body]
pub(crate) fn lossy_text(b: &[u8]) -> (r: String)
    ensures
        r@ == utf8_lossy(b@),
        b@.len() == 0 ==> r@.len() == 0,
{
    String::from_utf8_lossy(b).into_owned()
}

} // verus!
