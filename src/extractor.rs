use vstd::prelude::*;
use crate::boundary::{sniff_boundary, sniffed_choice, source_for, EntryPattern};
use crate::fragment::{
    lemma_tokens_markup, pattern_source, read_fragment, reads_markup, render, toks_of,
};
use crate::scan::ScanStatus;
use crate::window::{find_lt, has_gt_from, no_lt_between, tail_from};
use crate::xml::{lossy_text, utf8_lossy, xml_reads, xml_written};
use crate::scan::{is_open, is_plain_element, lemma_plain_element_accepted, status_after};

verus! {

/// Why a session could not start.
#[derive(PartialEq, Eq, Structural, Clone, Copy, Debug)]
pub enum XmlExtractorError {
    /// A new-entry pattern given by the user did not compile.
    Regex,
}

/// What one pull of a session gives.
pub enum Pull {
    /// The next fragment, rendered as text.
    Fragment(String),
    /// The window holds no decision yet: push more bytes, or end the input.
    NeedInput,
    /// The input has ended and holds no further fragment.
    Finished,
}

/// An extraction session before its first bytes are seen.
pub struct XmlExtractor {
    log_entry_regex: Option<EntryPattern>,
}

impl XmlExtractor {
    /// The new-entry pattern given at creation, if any.
    pub closed spec fn entry_pattern(&self) -> Option<Seq<char>> {
        pattern_source(self.log_entry_regex)
    }

    /// A session that recognises new log entries by the regular expression
    /// `log_entry_regex`, or, where it is `None`, by a pattern sniffed from the
    /// first bytes; `Err` where the expression does not compile.
    pub fn new(log_entry_regex: Option<&str>) -> (r: Result<XmlExtractor, XmlExtractorError>)
        ensures
            log_entry_regex is None ==> r is Ok,
            r matches Ok(x) ==> x.entry_pattern() == match log_entry_regex {
                Some(t) => Some(t@),
                None => None::<Seq<char>>,
            },
    {
        match log_entry_regex {
            Some(t) => match EntryPattern::compile(t) {
                Ok(p) => Ok(XmlExtractor { log_entry_regex: Some(p) }),
                Err(_) => Err(XmlExtractorError::Regex),
            },
            None => Ok(XmlExtractor { log_entry_regex: None }),
        }
    }

    /// Starts the session on the first bytes of the stream: at least twenty
    /// of them, unless the stream is shorter, in which case `ended` is set.
    /// These bytes are also the start of the window.
    pub fn into_iter(self, probe: Vec<u8>, ended: bool) -> (r: XmlExtractorIter)
        ensures
            r.wf() && r.pending() == probe@ && r.ended() == ended,
            self.entry_pattern() is Some ==> r.entry_pattern() == self.entry_pattern(),
            self.entry_pattern() is None ==> r.entry_pattern() == source_for(sniffed_choice(probe@)),
    {
        let log_entry_regex = match self.log_entry_regex {
            Some(re) => Some(re),
            None => match sniff_boundary(probe.as_slice()) {
                Ok((_, re)) => re,
                Err(_) => None,
            },
        };
        XmlExtractorIter { window: probe, cursor: 0, ended, log_entry_regex }
    }
}

/// A running extraction session: the bytes received but not yet consumed,
/// whether the stream has ended, and the new-entry pattern.
pub struct XmlExtractorIter {
    window: Vec<u8>,
    cursor: usize,
    ended: bool,
    log_entry_regex: Option<EntryPattern>,
}

/// The attempt at position `p` of `s` reaches its decision at read `n`.
pub open spec fn attempt_decided(s: Seq<u8>, pat: Option<Seq<char>>, p: int, n: int) -> bool {
    let rest = s.subrange(p, s.len() as int);
    &&& 1 <= n <= xml_reads(rest).len()
    &&& !is_open(status_after(toks_of(rest, pat, n)))
    &&& forall|i: int| 1 <= i < n ==> is_open(#[trigger] status_after(toks_of(rest, pat, i)))
}

/// The status in which the attempt at position `p` of `s` ends after `n` reads.
pub open spec fn attempt_status(s: Seq<u8>, pat: Option<Seq<char>>, p: int, n: int) -> ScanStatus {
    status_after(toks_of(s.subrange(p, s.len() as int), pat, n))
}

/// The reader's position, within the attempt, after its `n`-th read.
pub open spec fn attempt_end(s: Seq<u8>, p: int, n: int) -> nat {
    xml_reads(s.subrange(p, s.len() as int))[n - 1].2
}

/// Before the input ends, the attempt at `p`, decided at read `n`, waits for
/// more bytes: it was cut short, it reached the last byte received, or it
/// failed on markup with no `>` after it.
pub open spec fn attempt_waits(s: Seq<u8>, pat: Option<Seq<char>>, p: int, n: int, ended: bool) -> bool {
    let rest = s.subrange(p, s.len() as int);
    let st = attempt_status(s, pat, p, n);
    let last = xml_reads(rest)[n - 1];
    &&& !ended
    &&& ((st is Rejected && last.0 is Truncated) || last.2 == rest.len() || (st is Rejected
        && last.0 is Malformed && !(exists|i: int| last.2 <= i < rest.len() && rest[i] == 0x3Eu8)))
}

/// How far an accepted attempt moves the window: the bytes it consumed, at
/// least one.
pub open spec fn advance(end: nat) -> int {
    if end == 0 {
        1
    } else {
        end as int
    }
}

/// Where the first `n` reads at position `p` are one element with no nested
/// element of its own name, the attempt there is decided at read `n`, and
/// accepted; with `next_step`'s contract, the pull then yields that element's
/// markup unless it waits for more bytes.
pub proof fn lemma_plain_element_attempt(s: Seq<u8>, pat: Option<Seq<char>>, p: int, n: int)
    requires
        0 <= p <= s.len(),
        0 <= n <= xml_reads(s.subrange(p, s.len() as int)).len(),
        is_plain_element(toks_of(s.subrange(p, s.len() as int), pat, n)),
    ensures
        attempt_decided(s, pat, p, n),
        attempt_status(s, pat, p, n) is Accepted,
{
    let rest = s.subrange(p, s.len() as int);
    let t = toks_of(rest, pat, n);
    lemma_plain_element_accepted(t);
    assert forall|i: int| 1 <= i < n implies is_open(
        #[trigger] status_after(toks_of(rest, pat, i)),
    ) by {
        assert(toks_of(rest, pat, i) =~= t.subrange(0, i));
        assert(status_after(t.subrange(0, i)) == (ScanStatus::Inside { depth: 0 }));
    };
}

/// The first read at which the scanner decides on `rest`, searching from
/// read `n` (all reads if none decides, which the last read always does).
pub open spec fn decided_from(rest: Seq<u8>, pat: Option<Seq<char>>, n: int) -> int
    decreases xml_reads(rest).len() - n,
{
    if n >= xml_reads(rest).len() {
        xml_reads(rest).len() as int
    } else if n >= 1 && !is_open(status_after(toks_of(rest, pat, n))) {
        n
    } else {
        decided_from(rest, pat, n + 1)
    }
}

/// What one pull gives, in the abstract.
pub enum Outcome {
    Fragment(Seq<char>),
    NeedInput,
    Finished,
}

/// The outcome of a pull on the pending bytes `s`, scanning from position
/// `c`, and the position from which the bytes stay pending.  Bytes other than
/// `<` are skipped; at a `<` the attempt there either waits for more bytes,
/// yields the text of its markup and moves past it, or is dropped and the scan
/// goes on at the next byte.  With no `<` left the window is emptied.
pub open spec fn pull_from(s: Seq<u8>, pat: Option<Seq<char>>, ended: bool, c: int) -> (Outcome, int)
    decreases s.len() - c,
{
    if c >= s.len() {
        (if ended { Outcome::Finished } else { Outcome::NeedInput }, s.len() as int)
    } else if c >= 0 && s[c] != 0x3Cu8 {
        pull_from(s, pat, ended, c + 1)
    } else {
        let rest = s.subrange(c, s.len() as int);
        let n = decided_from(rest, pat, 1);
        if attempt_waits(s, pat, c, n, ended) {
            (Outcome::NeedInput, c)
        } else if attempt_status(s, pat, c, n) is Accepted {
            (
                Outcome::Fragment(utf8_lossy(reads_markup(xml_written(rest), n))),
                c + advance(attempt_end(s, c, n)),
            )
        } else {
            pull_from(s, pat, ended, c + 1)
        }
    }
}

/// Where the pending bytes hold no `<` before position `p`, a `<` at `p`, and
/// the first `n` reads there are one element with no nested element of its own
/// name, a pull that does not wait yields that element's written markup, as
/// text, and the window moves past it.
pub proof fn lemma_plain_element_pulled(
    s: Seq<u8>,
    pat: Option<Seq<char>>,
    ended: bool,
    p: int,
    n: int,
)
    requires
        0 <= p < s.len(),
        s[p] == 0x3Cu8,
        no_lt_between(s, 0, p),
        0 <= n <= xml_reads(s.subrange(p, s.len() as int)).len(),
        is_plain_element(toks_of(s.subrange(p, s.len() as int), pat, n)),
        !attempt_waits(s, pat, p, n, ended),
    ensures
        pull_from(s, pat, ended, 0) == (
            Outcome::Fragment(
                utf8_lossy(reads_markup(xml_written(s.subrange(p, s.len() as int)), n)),
            ),
            p + advance(attempt_end(s, p, n)),
        ),
{
    lemma_skip(s, pat, ended, 0, p);
    lemma_plain_element_attempt(s, pat, p, n);
    let rest = s.subrange(p, s.len() as int);
    lemma_decided_from(rest, pat, 1, n);
}

/// An attempt at the first `<` that is rejected and does not wait (one that
/// meets a text the entry pattern matches, or, once the input has ended, one
/// that never closes) yields nothing: the pull is the pull from the next byte.
pub proof fn lemma_rejected_attempt_skipped(s: Seq<u8>, pat: Option<Seq<char>>, ended: bool, p: int)
    requires
        0 <= p < s.len(),
        s[p] == 0x3Cu8,
        no_lt_between(s, 0, p),
        !attempt_waits(
            s,
            pat,
            p,
            decided_from(s.subrange(p, s.len() as int), pat, 1),
            ended,
        ),
        attempt_status(s, pat, p, decided_from(s.subrange(p, s.len() as int), pat, 1)) is Rejected,
    ensures
        pull_from(s, pat, ended, 0) == pull_from(s, pat, ended, p + 1),
{
    lemma_skip(s, pat, ended, 0, p);
}

impl Pull {
    /// The pull in the abstract.
    pub open spec fn outcome(&self) -> Outcome {
        match self {
            Pull::Fragment(t) => Outcome::Fragment(t@),
            Pull::NeedInput => Outcome::NeedInput,
            Pull::Finished => Outcome::Finished,
        }
    }
}

proof fn lemma_decided_from(rest: Seq<u8>, pat: Option<Seq<char>>, m: int, c: int)
    requires
        1 <= m <= c <= xml_reads(rest).len(),
        !is_open(status_after(toks_of(rest, pat, c))),
        forall|i: int| 1 <= i < c ==> is_open(#[trigger] status_after(toks_of(rest, pat, i))),
    ensures
        decided_from(rest, pat, m) == c,
    decreases c - m,
{
    if m < c {
        assert(is_open(status_after(toks_of(rest, pat, m))));
        lemma_decided_from(rest, pat, m + 1, c);
    }
}

proof fn lemma_skip(s: Seq<u8>, pat: Option<Seq<char>>, ended: bool, c: int, p: int)
    requires
        0 <= c <= p <= s.len(),
        no_lt_between(s, c, p),
    ensures
        pull_from(s, pat, ended, c) == pull_from(s, pat, ended, p),
    decreases p - c,
{
    if c < p {
        assert(s[c] != 0x3Cu8);
        lemma_skip(s, pat, ended, c + 1, p);
    }
}

impl XmlExtractorIter {
    /// The bookkeeping is consistent.
    pub closed spec fn wf(&self) -> bool {
        self.cursor <= self.window@.len()
    }

    /// The bytes received and not yet consumed.
    pub closed spec fn pending(&self) -> Seq<u8> {
        self.window@.subrange(self.cursor as int, self.window@.len() as int)
    }

    /// The pattern that marks a new log entry, if any.
    pub closed spec fn entry_pattern(&self) -> Option<Seq<char>> {
        pattern_source(self.log_entry_regex)
    }

    /// Whether the stream has ended.
    pub closed spec fn ended(&self) -> bool {
        self.ended
    }

    /// Appends the next bytes of the stream.
    pub fn push(&mut self, chunk: &[u8])
        requires
            old(self).wf(),
            !old(self).ended(),
        ensures
            final(self).wf(),
            final(self).pending() == old(self).pending() + chunk@,
            !final(self).ended(),
            final(self).entry_pattern() == old(self).entry_pattern(),
    {
        let ghost before = self.pending();
        self.window.extend_from_slice(chunk);
        assert(self.pending() =~= before + chunk@);
    }

    /// Records that the stream has ended.
    pub fn end_input(&mut self)
        requires
            old(self).wf(),
        ensures
            final(self).wf(),
            final(self).pending() == old(self).pending(),
            final(self).ended(),
            final(self).entry_pattern() == old(self).entry_pattern(),
    {
        self.ended = true;
    }

    /// Pulls the next fragment.  Bytes before the next `<` are skipped; an
    /// attempt that fails is dropped and the scan resumes one byte after its
    /// `<`.  An attempt that reaches the last byte received before the stream
    /// has ended, or fails on markup with no `>` after it, waits, from its `<`,
    /// for more bytes, since what follows may change how the markup reads.
    pub fn next_step(&mut self) -> (r: Pull)
        requires
            old(self).wf(),
        ensures
            final(self).wf(),
            final(self).ended() == old(self).ended(),
            final(self).entry_pattern() == old(self).entry_pattern(),
            r.outcome() == pull_from(old(self).pending(), old(self).entry_pattern(), old(self).ended(), 0).0,
            final(self).pending() == old(self).pending().subrange(
                pull_from(old(self).pending(), old(self).entry_pattern(), old(self).ended(), 0).1,
                old(self).pending().len() as int,
            ),
            old(self).ended() ==> r is Finished || final(self).pending().len() < old(
                self,
            ).pending().len(),
    {
        let ghost start = self.pending();
        let ghost c0 = self.cursor as int;
        let ghost pat = old(self).entry_pattern();
        let ghost ended = self.ended;
        loop
            invariant
                self.wf(),
                self.ended == ended,
                ended == old(self).ended(),
                self.log_entry_regex == old(self).log_entry_regex,
                pat == old(self).entry_pattern(),
                pattern_source(self.log_entry_regex) == pat,
                c0 <= self.cursor,
                self.window@ == old(self).window@,
                start == old(self).pending(),
                c0 == old(self).cursor,
                self.window@.subrange(c0, self.window@.len() as int) == start,
                pull_from(start, pat, ended, 0) == pull_from(start, pat, ended, self.cursor - c0),
            decreases self.window@.len() - self.cursor,
        {
            let ghost cur = self.cursor - c0;
            match find_lt(self.window.as_slice(), self.cursor) {
                None => {
                    proof {
                        assert forall|i: int| cur <= i < start.len() implies #[trigger] start[i]
                            != 0x3Cu8 by {
                            assert(start[i] == self.window@[c0 + i]);
                        };
                        lemma_skip(start, pat, ended, cur, start.len() as int);
                    }
                    self.window = Vec::new();
                    self.cursor = 0;
                    assert(self.pending() =~= start.subrange(start.len() as int, start.len() as int));
                    if self.ended {
                        return Pull::Finished;
                    } else {
                        return Pull::NeedInput;
                    }
                },
                Some(p) => {
                    let wl = self.window.len();
                    let ghost cp = p - c0;
                    proof {
                        assert forall|i: int| cur <= i < cp implies #[trigger] start[i] != 0x3Cu8 by {
                            assert(start[i] == self.window@[c0 + i]);
                        };
                        lemma_skip(start, pat, ended, cur, cp);
                        assert(start[cp] == self.window@[p as int]);
                    }
                    let rest = tail_from(self.window.as_slice(), p);
                    let a = read_fragment(rest.as_slice(), &self.log_entry_regex);
                    proof {
                        assert(start.subrange(cp, start.len() as int) =~= rest@);
                        lemma_decided_from(rest@, pat, 1, a.count as int);
                    }
                    let at_end = a.cut_short || a.consumed == rest.len() || (a.malformed
                        && !has_gt_from(rest.as_slice(), a.consumed));
                    if at_end && !self.ended {
                        self.window = rest;
                        self.cursor = 0;
                        assert(self.pending() =~= start.subrange(cp, start.len() as int));
                        return Pull::NeedInput;
                    } else if a.status == ScanStatus::Accepted {
                        let step: usize = if a.consumed == 0 {
                            1
                        } else {
                            a.consumed
                        };
                        assert(rest@.len() == wl - p);
                        self.window = tail_from(self.window.as_slice(), p + step);
                        self.cursor = 0;
                        assert(self.pending() =~= start.subrange(cp + step, start.len() as int));
                        let bytes = render(&a.tokens, a.count);
                        proof {
                            lemma_tokens_markup(a.tokens@, rest@, a.count as int);
                        }
                        return Pull::Fragment(lossy_text(bytes.as_slice()));
                    } else {
                        self.cursor = p + 1;
                    }
                },
            }
        }
    }
}

} // verus!
