//! Extraction of well-formed XML fragments embedded in free-form log text.
//!
//! Bytes arrive in chunks; the extractor keeps the unconsumed remainder in a
//! window, finds each `<`, and tries to read one element from there (tracking
//! nested elements of the same name).  An attempt that runs into the start of
//! the next log entry, hits a syntax error, or never closes is dropped, and
//! scanning resumes one byte after its `<`.

mod boundary;
mod extractor;
mod fragment;
mod scan;
mod window;
mod xml;

pub use scan::{scan_step, ScanStatus, TokenKind};
pub use window::{find_lt, has_gt_from, tail_from};
pub use boundary::{choose_boundary, sniff_boundary, BoundaryChoice, EntryPattern};
pub use extractor::{Pull, XmlExtractor, XmlExtractorError, XmlExtractorIter};
pub use fragment::{read_fragment, render, same_bytes, Attempt};
