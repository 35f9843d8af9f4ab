use vstd::prelude::*;
use crate::boundary::{regex_match, EntryPattern};
use crate::scan::{is_open, next_status, scan_step, status_after, ScanStatus, Tok, TokenKind};
use crate::xml::{holds_reads, is_final_kind, read_all, xml_reads, xml_written, Token};

verus! {

/// Whether two byte sequences are equal.
pub fn same_bytes(a: &[u8], b: &[u8]) -> (r: bool)
    ensures
        r == (a@ == b@),
{
    if a.len() != b.len() {
        return false;
    }
    let mut i: usize = 0;
    while i < a.len()
        invariant
            a@.len() == b@.len(),
            i <= a@.len(),
            forall|j: int| 0 <= j < i ==> a@[j] == b@[j],
        decreases a@.len() - i,
    {
        if a[i] != b[i] {
            return false;
        }
        i = i + 1;
    }
    assert(a@ =~= b@);
    true
}

fn still_open(s: ScanStatus) -> (r: bool)
    ensures
        r == is_open(s),
{
    match s {
        ScanStatus::Expect | ScanStatus::Inside { .. } => true,
        _ => false,
    }
}

/// The source of a pattern, if any.
pub open spec fn pattern_source(p: Option<EntryPattern>) -> Option<Seq<char>> {
    match p {
        Some(q) => Some(q.source()),
        None => None,
    }
}

/// The scanner's view of read `i` of `bytes`: its kind; whether its name is
/// that of the first read; whether the pattern matches its text.
pub open spec fn tok_at(bytes: Seq<u8>, pat: Option<Seq<char>>, i: int) -> Tok {
    let r = xml_reads(bytes)[i];
    Tok {
        kind: r.0,
        same_name: i > 0 && r.1 == xml_reads(bytes)[0].1,
        boundary_hit: r.0 is Text && (pat matches Some(src) && regex_match(src, r.1)),
    }
}

/// The scanner's view of the first `n` reads of `bytes`.
pub open spec fn toks_of(bytes: Seq<u8>, pat: Option<Seq<char>>, n: int) -> Seq<Tok> {
    Seq::new(n as nat, |i: int| tok_at(bytes, pat, i))
}

/// The outcome of one attempt to read an element from the start of a byte
/// sequence.
pub struct Attempt {
    /// `Accepted` or `Rejected`.
    pub status: ScanStatus,
    /// The attempt was rejected because the bytes ran out.
    pub cut_short: bool,
    /// The attempt was rejected on a syntax error.
    pub malformed: bool,
    /// The reader's position after the last read of the attempt.
    pub consumed: usize,
    /// All reads of the bytes; the attempt used the first `count`.
    pub tokens: Vec<Token>,
    /// How many reads the attempt used.
    pub count: usize,
}

proof fn lemma_status_after_push(toks: Seq<Tok>, t: Tok)
    ensures
        status_after(toks.push(t)) == next_status(status_after(toks), t),
{
    assert(toks.push(t).drop_last() =~= toks);
}

/// Reads one element from the start of `bytes`, tracking nested elements of
/// the same name, and abandons the attempt where a text event inside it
/// matches `boundary`.  Reading stops at the first decision of the scanner;
/// the last read always decides, since it reports the end or an error.
pub fn read_fragment(bytes: &[u8], boundary: &Option<EntryPattern>) -> (a: Attempt)
    ensures
        1 <= a.count <= xml_reads(bytes@).len(),
        a.tokens@.len() == xml_reads(bytes@).len(),
        a.status == status_after(toks_of(bytes@, pattern_source(*boundary), a.count as int)),
        a.status is Accepted || a.status is Rejected,
        forall|i: int|
            1 <= i < a.count ==> is_open(
                #[trigger] status_after(toks_of(bytes@, pattern_source(*boundary), i)),
            ),
        a.consumed as nat == xml_reads(bytes@)[a.count - 1].2,
        a.consumed <= bytes@.len(),
        a.cut_short <==> a.status is Rejected && xml_reads(bytes@)[a.count - 1].0 is Truncated,
        a.malformed <==> a.status is Rejected && xml_reads(bytes@)[a.count - 1].0 is Malformed,
        holds_reads(a.tokens@, bytes@),
{
    let tokens = read_all(bytes);
    let ghost pat = pattern_source(*boundary);
    let mut status = ScanStatus::Expect;
    let mut i: usize = 0;
    while i < tokens.len() && still_open(status)
        invariant
            pat == pattern_source(*boundary),
            holds_reads(tokens@, bytes@),
            i <= tokens@.len(),
            status == status_after(toks_of(bytes@, pat, i as int)),
            i == 0 <==> status is Expect,
            status is Inside ==> status->depth <= i,
            i == tokens@.len() ==> !is_open(status),
            forall|j: int| 1 <= j < i ==> is_open(#[trigger] status_after(toks_of(bytes@, pat, j))),
            !is_open(status) ==> i >= 1,
        decreases tokens@.len() - i,
    {
        let t = &tokens[i];
        let same_name = match status {
            ScanStatus::Inside { .. } => same_bytes(t.name.as_slice(), tokens[0].name.as_slice()),
            _ => false,
        };
        let boundary_hit = match boundary {
            Some(p) => t.kind == TokenKind::Text && p.is_match(t.name.as_slice()),
            None => false,
        };
        let next = scan_step(status, t.kind, same_name, boundary_hit);
        proof {
            let prev = toks_of(bytes@, pat, i as int);
            let r = xml_reads(bytes@)[i as int];
            assert(tokens@[i as int].kind == r.0 && tokens@[i as int].name@ == r.1);
            assert(tokens@[0].name@ == xml_reads(bytes@)[0].1);
            assert(tok_at(bytes@, pat, i as int).kind == t.kind);
            assert(tok_at(bytes@, pat, i as int).same_name == same_name);
            assert(tok_at(bytes@, pat, i as int).boundary_hit == boundary_hit);
            assert(tok_at(bytes@, pat, i as int) == (Tok { kind: t.kind, same_name, boundary_hit }));
            lemma_status_after_push(prev, tok_at(bytes@, pat, i as int));
            assert(toks_of(bytes@, pat, i + 1) =~= prev.push(tok_at(bytes@, pat, i as int)));
        }
        status = next;
        i = i + 1;
    }
    let last = &tokens[i - 1];
    let cut_short = status == ScanStatus::Rejected && last.kind == TokenKind::Truncated;
    let malformed = status == ScanStatus::Rejected && last.kind == TokenKind::Malformed;
    let consumed = last.end;
    Attempt { status, cut_short, malformed, consumed, tokens, count: i }
}

/// The markup of the first `n` tokens, joined in order.
pub open spec fn tokens_markup(t: Seq<Token>, n: int) -> Seq<u8>
    decreases n,
{
    if n <= 0 {
        Seq::empty()
    } else {
        tokens_markup(t, n - 1) + t[n - 1].markup@
    }
}

/// The first `n` pieces of written markup, joined in order.
pub open spec fn reads_markup(r: Seq<Seq<u8>>, n: int) -> Seq<u8>
    decreases n,
{
    if n <= 0 {
        Seq::empty()
    } else {
        reads_markup(r, n - 1) + r[n - 1]
    }
}

/// Tokens that hold the reads of some bytes join to the same markup.
pub proof fn lemma_tokens_markup(t: Seq<Token>, bytes: Seq<u8>, n: int)
    requires
        holds_reads(t, bytes),
        0 <= n <= t.len(),
    ensures
        tokens_markup(t, n) == reads_markup(xml_written(bytes), n),
    decreases n,
{
    if n > 0 {
        lemma_tokens_markup(t, bytes, n - 1);
        assert(t[n - 1].markup@ == xml_written(bytes)[n - 1]);
    }
}

/// Renders the first `count` events as markup, in order.
pub fn render(tokens: &Vec<Token>, count: usize) -> (r: Vec<u8>)
    requires
        count <= tokens@.len(),
    ensures
        r@ == tokens_markup(tokens@, count as int),
{
    let mut out: Vec<u8> = Vec::new();
    let mut i: usize = 0;
    while i < count
        invariant
            i <= count <= tokens@.len(),
            out@ == tokens_markup(tokens@, i as int),
        decreases count - i,
    {
        let m = &tokens[i].markup;
        let mut j: usize = 0;
        let ghost base = out@;
        while j < m.len()
            invariant
                j <= m@.len(),
                out@ == base + m@.subrange(0, j as int),
            decreases m@.len() - j,
        {
            out.push(m[j]);
            j = j + 1;
            assert(out@ =~= base + m@.subrange(0, j as int));
        }
        assert(m@.subrange(0, m@.len() as int) =~= m@);
        i = i + 1;
    }
    out
}

} // verus!
