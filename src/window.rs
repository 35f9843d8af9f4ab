use vstd::prelude::*;

verus! {

/// No `<` stands in `s` at positions `from .. to`.
pub open spec fn no_lt_between(s: Seq<u8>, from: int, to: int) -> bool {
    forall|i: int| from <= i < to ==> #[trigger] s[i] != 0x3Cu8
}

/// The position of the first `<` at or after `from`, if any.
pub fn find_lt(bytes: &[u8], from: usize) -> (r: Option<usize>)
    ensures
        match r {
            Some(p) => from <= p < bytes@.len() && bytes@[p as int] == 0x3Cu8 && no_lt_between(
                bytes@,
                from as int,
                p as int,
            ),
            None => no_lt_between(bytes@, from as int, bytes@.len() as int),
        },
{
    let mut i: usize = from;
    if i > bytes.len() {
        return None;
    }
    while i < bytes.len()
        invariant
            from <= i <= bytes@.len(),
            no_lt_between(bytes@, from as int, i as int),
        decreases bytes@.len() - i,
    {
        if bytes[i] == 0x3Cu8 {
            return Some(i);
        }
        i = i + 1;
    }
    None
}

/// Whether a `>` stands in `bytes` at or after `from`.
pub fn has_gt_from(bytes: &[u8], from: usize) -> (r: bool)
    ensures
        r == exists|i: int| from <= i < bytes@.len() && #[trigger] bytes@[i] == 0x3Eu8,
{
    let mut i: usize = from;
    while i < bytes.len()
        invariant
            from <= i,
            forall|j: int| from <= j < i ==> #[trigger] bytes@[j] != 0x3Eu8,
        decreases bytes@.len() - i,
    {
        if bytes[i] == 0x3Eu8 {
            return true;
        }
        i = i + 1;
    }
    false
}

/// The bytes of `v` from position `k` on.
pub fn tail_from(v: &[u8], k: usize) -> (r: Vec<u8>)
    requires
        k <= v@.len(),
    ensures
        r@ == v@.subrange(k as int, v@.len() as int),
{
    let mut r: Vec<u8> = Vec::new();
    let mut i: usize = k;
    while i < v.len()
        invariant
            k <= i <= v@.len(),
            r@ == v@.subrange(k as int, i as int),
        decreases v@.len() - i,
    {
        r.push(v[i]);
        i = i + 1;
    }
    assert(r@ =~= v@.subrange(k as int, v@.len() as int));
    r
}

} // verus!
