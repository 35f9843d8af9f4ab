use vstd::prelude::*;

verus! {

/// The kind of one markup event, as the scanner sees it.
#[derive(PartialEq, Eq, Structural, Clone, Copy, Debug)]
pub enum TokenKind {
    Start,
    End,
    Empty,
    Text,
    /// Something else that can stand inside an element (comment, CDATA, ...).
    Other,
    /// The input ran out: the end of the bytes, or an element cut short.
    Truncated,
    /// A syntax error in the markup.
    Malformed,
}

/// Where one fragment attempt stands after the events read so far.
#[derive(PartialEq, Eq, Structural, Clone, Copy, Debug)]
pub enum ScanStatus {
    /// Nothing read yet: the next event decides whether an element starts.
    Expect,
    /// Inside the element; `depth` counts open descendants of the same name.
    Inside { depth: usize },
    /// The element is complete.
    Accepted,
    /// The attempt is abandoned.
    Rejected,
}

/// One event in the abstract: its kind, whether its name equals the name of
/// the element under scan, and whether the entry boundary matches its text.
pub struct Tok {
    pub kind: TokenKind,
    pub same_name: bool,
    pub boundary_hit: bool,
}

/// The transition of the fragment scanner on one event.
pub open spec fn next_status(s: ScanStatus, t: Tok) -> ScanStatus {
    match s {
        ScanStatus::Expect => match t.kind {
            TokenKind::Empty => ScanStatus::Accepted,
            TokenKind::Start => ScanStatus::Inside { depth: 0 },
            _ => ScanStatus::Rejected,
        },
        ScanStatus::Inside { depth } => match t.kind {
            TokenKind::Start => if t.same_name {
                ScanStatus::Inside { depth: (depth + 1) as usize }
            } else {
                s
            },
            TokenKind::End => if !t.same_name {
                s
            } else if depth == 0 {
                ScanStatus::Accepted
            } else {
                ScanStatus::Inside { depth: (depth - 1) as usize }
            },
            TokenKind::Text => if t.boundary_hit {
                ScanStatus::Rejected
            } else {
                s
            },
            TokenKind::Truncated | TokenKind::Malformed => ScanStatus::Rejected,
            _ => s,
        },
        _ => s,
    }
}

/// The status reached after a whole sequence of events, from `Expect`.
pub open spec fn status_after(toks: Seq<Tok>) -> ScanStatus
    decreases toks.len(),
{
    if toks.len() == 0 {
        ScanStatus::Expect
    } else {
        next_status(status_after(toks.drop_last()), toks.last())
    }
}

/// A status in which the attempt is still open.
pub open spec fn is_open(s: ScanStatus) -> bool {
    s is Expect || s is Inside
}

/// Advances the scanner by one event.
pub fn scan_step(s: ScanStatus, kind: TokenKind, same_name: bool, boundary_hit: bool) -> (r:
    ScanStatus)
    requires
        s is Inside && kind is Start && same_name ==> s->depth < usize::MAX,
    ensures
        r == next_status(s, Tok { kind, same_name, boundary_hit }),
{
    match s {
        ScanStatus::Expect => match kind {
            TokenKind::Empty => ScanStatus::Accepted,
            TokenKind::Start => ScanStatus::Inside { depth: 0 },
            _ => ScanStatus::Rejected,
        },
        ScanStatus::Inside { depth } => match kind {
            TokenKind::Start => if same_name {
                ScanStatus::Inside { depth: depth + 1 }
            } else {
                s
            },
            TokenKind::End => if !same_name {
                s
            } else if depth == 0 {
                ScanStatus::Accepted
            } else {
                ScanStatus::Inside { depth: depth - 1 }
            },
            TokenKind::Text => if boundary_hit {
                ScanStatus::Rejected
            } else {
                s
            },
            TokenKind::Truncated | TokenKind::Malformed => ScanStatus::Rejected,
            _ => s,
        },
        _ => s,
    }
}

/// A text event inside an element that the entry boundary matches abandons the
/// attempt, at any depth.
pub proof fn lemma_boundary_hit_rejects(depth: usize, same_name: bool)
    ensures
        next_status(
            ScanStatus::Inside { depth },
            Tok { kind: TokenKind::Text, same_name, boundary_hit: true },
        ) == ScanStatus::Rejected,
{
}

/// An element that is cut short by the end of the input is never accepted.
pub proof fn lemma_truncated_rejects(s: ScanStatus, same_name: bool, boundary_hit: bool)
    requires
        is_open(s),
    ensures
        next_status(s, Tok { kind: TokenKind::Truncated, same_name, boundary_hit })
            == ScanStatus::Rejected,
{
}

/// A single self-closing element is a complete fragment.
pub proof fn lemma_empty_element_accepted(t: Tok)
    requires
        t.kind is Empty,
    ensures
        status_after(seq![t]) == ScanStatus::Accepted,
{
    reveal_with_fuel(status_after, 2);
    assert(seq![t].drop_last() =~= Seq::<Tok>::empty());
}

/// An event that leaves an element under scan as it is: it neither opens nor
/// closes an element of the same name, holds no text that the boundary
/// matches, and is neither cut short nor malformed.
pub open spec fn is_neutral(t: Tok) -> bool {
    &&& !(t.same_name && (t.kind is Start || t.kind is End))
    &&& !(t.kind is Text && t.boundary_hit)
    &&& !(t.kind is Truncated)
    &&& !(t.kind is Malformed)
}

/// The events of one element with no nested element of its own name: its
/// start tag, neutral events, and the end tag of its name.
pub open spec fn is_plain_element(t: Seq<Tok>) -> bool {
    &&& t.len() >= 2
    &&& t[0].kind is Start
    &&& t.last().kind is End
    &&& t.last().same_name
    &&& forall|i: int| 1 <= i < t.len() - 1 ==> is_neutral(#[trigger] t[i])
}

proof fn lemma_plain_prefix_inside(t: Seq<Tok>, i: int)
    requires
        is_plain_element(t),
        1 <= i <= t.len() - 1,
    ensures
        status_after(t.subrange(0, i)) == (ScanStatus::Inside { depth: 0 }),
    decreases i,
{
    let p = t.subrange(0, i);
    if i == 1 {
        assert(p.drop_last() =~= Seq::<Tok>::empty());
        assert(status_after(p.drop_last()) == ScanStatus::Expect);
        assert(p.last() == t[0]);
    } else {
        lemma_plain_prefix_inside(t, i - 1);
        assert(p.drop_last() =~= t.subrange(0, i - 1));
        assert(p.last() == t[i - 1]);
        assert(is_neutral(t[i - 1]));
    }
}

/// An element with no nested element of its own name is accepted exactly at
/// its end tag: every shorter prefix leaves the attempt open at depth zero,
/// and the whole sequence is accepted.
pub proof fn lemma_plain_element_accepted(t: Seq<Tok>)
    requires
        is_plain_element(t),
    ensures
        status_after(t) == ScanStatus::Accepted,
        forall|i: int|
            1 <= i < t.len() ==> #[trigger] status_after(t.subrange(0, i)) == (ScanStatus::Inside {
                depth: 0,
            }),
{
    assert forall|i: int| 1 <= i < t.len() implies #[trigger] status_after(t.subrange(0, i)) == (
    ScanStatus::Inside { depth: 0 }) by {
        lemma_plain_prefix_inside(t, i);
    };
    lemma_plain_prefix_inside(t, t.len() - 1);
    assert(t.drop_last() =~= t.subrange(0, t.len() - 1));
}

} // verus!
