use vstd::prelude::*;
use regex::bytes::Regex;

verus! {

/// A probe longer than this many bytes is long enough to hold a timestamp.
pub const TIMESTAMP_LEN: usize = 19;

/// A timestamp at the very start of the stream.
pub const TIMESTAMP_AT_START: &'static str = "^\\d{4}-\\d{2}-\\d{2} \\d{2}:\\d{2}:\\d{2}";

/// A new line that starts with a timestamp.
pub const TIMESTAMP_AFTER_NEWLINE: &'static str = "\\n\\d{4}-\\d{2}-\\d{2} \\d{2}:\\d{2}:\\d{2}";

/// A non-whitespace character at the very start of the stream.
pub const NON_WS_AT_START: &'static str = "^\\S";

/// A new line that starts with a non-whitespace character.
pub const NON_WS_AFTER_NEWLINE: &'static str = "\\n\\S";

/// How the start of a new log entry is recognised.
#[derive(PartialEq, Eq, Structural, Clone, Copy, Debug)]
pub enum BoundaryChoice {
    /// A new line that starts with a timestamp.
    Timestamp,
    /// A new line that starts with a non-whitespace character.
    NonWhitespace,
    /// Entries are not told apart.
    Disabled,
}

/// The boundary chosen from the probe's length and what the two start
/// patterns say of it.
pub open spec fn boundary_of(
    probe_len: nat,
    starts_with_timestamp: bool,
    starts_with_non_ws: bool,
) -> BoundaryChoice {
    if probe_len > TIMESTAMP_LEN && starts_with_timestamp {
        BoundaryChoice::Timestamp
    } else if starts_with_non_ws {
        BoundaryChoice::NonWhitespace
    } else {
        BoundaryChoice::Disabled
    }
}

/// Chooses how a new log entry is recognised: a timestamped stream (whose
/// probe is long enough to hold a timestamp) by the next timestamp, else a
/// stream that starts with a non-whitespace byte by the next line that does,
/// else not at all.
pub fn choose_boundary(probe_len: usize, starts_with_timestamp: bool, starts_with_non_ws: bool) -> (r:
    BoundaryChoice)
    ensures
        r == boundary_of(probe_len as nat, starts_with_timestamp, starts_with_non_ws),
{
    if probe_len > TIMESTAMP_LEN && starts_with_timestamp {
        BoundaryChoice::Timestamp
    } else if starts_with_non_ws {
        BoundaryChoice::NonWhitespace
    } else {
        BoundaryChoice::Disabled
    }
}

/// The pattern that marks a new entry under a choice.
pub fn new_entry_pattern(c: BoundaryChoice) -> (r: Option<&'static str>)
    ensures
        c is Timestamp ==> r == Some(TIMESTAMP_AFTER_NEWLINE),
        c is NonWhitespace ==> r == Some(NON_WS_AFTER_NEWLINE),
        c is Disabled ==> r is None,
{
    match c {
        BoundaryChoice::Timestamp => Some(TIMESTAMP_AFTER_NEWLINE),
        BoundaryChoice::NonWhitespace => Some(NON_WS_AFTER_NEWLINE),
        BoundaryChoice::Disabled => None,
    }
}

#[verifier::external_type_specification]
#[verifier::external_body]
pub struct ExRegex(Regex);

#[verifier::external_type_specification]
#[verifier::external_body]
pub struct ExRegexError(regex::Error);

/// Whether the regular expression `pattern`, compiled by `Regex::new` with
/// default options, matches anywhere in `hay`, as `Regex::is_match` decides it.
pub uninterp spec fn regex_match(pattern: Seq<char>, hay: Seq<u8>) -> bool;

/// A pattern that marks the start of a new log entry, compiled by
/// `Regex::new` with default options and kept beside the text it was compiled
/// from, so that the text alone decides what it matches.
pub struct EntryPattern {
    source: String,
    regex: Regex,
}

impl EntryPattern {
    /// The text the pattern was compiled from.
    pub closed spec fn source(&self) -> Seq<char> {
        self.source@
    }

    /// Relies on regex::bytes::Regex::new: compiles `source`, or reports why it
    /// cannot; it fails only on a syntax error or a size limit, and the four
    /// fixed patterns of this module are well-formed and small.
    #[verifier::external_body]
    pub fn compile(source: &str) -> (r: Result<EntryPattern, regex::Error>)
        ensures
            r matches Ok(p) ==> p.source() == source@,
            source@ == TIMESTAMP_AT_START@ || source@ == NON_WS_AT_START@ || source@
                == TIMESTAMP_AFTER_NEWLINE@ || source@ == NON_WS_AFTER_NEWLINE@ ==> r is Ok,
    {
        Regex::new(source).map(|regex| EntryPattern { source: source.to_string(), regex })
    }

    /// Relies on regex::bytes::Regex::is_match: whether the pattern matches
    /// anywhere in `hay`.
    #[verifier::external_body]
    pub fn is_match(&self, hay: &[u8]) -> (r: bool)
        ensures
            r == regex_match(self.source(), hay@),
    {
        self.regex.is_match(hay)
    }
}

/// What sniffing decides: the choice and, unless it is `Disabled`, the
/// source of the new-entry pattern.
pub open spec fn sniffed_choice(probe: Seq<u8>) -> BoundaryChoice {
    boundary_of(
        probe.len(),
        probe.len() > TIMESTAMP_LEN && regex_match(TIMESTAMP_AT_START@, probe),
        regex_match(NON_WS_AT_START@, probe),
    )
}

/// The source of the new-entry pattern under a choice.
pub open spec fn source_for(c: BoundaryChoice) -> Option<Seq<char>> {
    match c {
        BoundaryChoice::Timestamp => Some(TIMESTAMP_AFTER_NEWLINE@),
        BoundaryChoice::NonWhitespace => Some(NON_WS_AFTER_NEWLINE@),
        BoundaryChoice::Disabled => None,
    }
}

/// Whether `pattern` compiles and matches `probe`; `Err` where it does not
/// compile.
fn probe_matches(pattern: &str, probe: &[u8]) -> (r: Result<bool, regex::Error>)
    ensures
        pattern@ == TIMESTAMP_AT_START@ || pattern@ == NON_WS_AT_START@ ==> r is Ok,
        r matches Ok(b) ==> b == regex_match(pattern@, probe@),
{
    match EntryPattern::compile(pattern) {
        Ok(p) => Ok(p.is_match(probe)),
        Err(e) => Err(e),
    }
}

/// Sniffs the first bytes of a stream and compiles the new-entry pattern
/// chosen for it; `Err` where a pattern does not compile.  The timestamp
/// pattern is tried only on a probe long enough to hold a timestamp.
pub fn sniff_boundary(probe: &[u8]) -> (r: Result<(BoundaryChoice, Option<EntryPattern>), regex::Error>)
    ensures
        r is Ok,
        r matches Ok((c, p)) ==> c == sniffed_choice(probe@) && (c is Timestamp ==> (p matches Some(
            q) && q.source() == TIMESTAMP_AFTER_NEWLINE@)) && (c is NonWhitespace ==> (
        p matches Some(q) && q.source() == NON_WS_AFTER_NEWLINE@)) && (c is Disabled ==> p is None),
{
    let ts = if probe.len() > TIMESTAMP_LEN {
        match probe_matches(TIMESTAMP_AT_START, probe) {
            Ok(b) => b,
            Err(e) => {
                return Err(e);
            },
        }
    } else {
        false
    };
    let nw = match probe_matches(NON_WS_AT_START, probe) {
        Ok(b) => b,
        Err(e) => {
            return Err(e);
        },
    };
    let choice = choose_boundary(probe.len(), ts, nw);
    match new_entry_pattern(choice) {
        Some(p) => match EntryPattern::compile(p) {
            Ok(re) => Ok((choice, Some(re))),
            Err(e) => Err(e),
        },
        None => Ok((choice, None)),
    }
}

} // verus!
