//! The vendor-index fan-out.
//!
//! Each vendor-index URL is fetched and parsed (by the external XML parser)
//! into a document listing descriptor references and further vendor-index
//! references. The fan-out flattens the descriptor references of the indices
//! that could be fetched and parsed, in order, and drops failed indices: the
//! federated index is partial by nature and one unreachable vendor must not
//! poison a run. Vendor-index references found inside an index are not
//! expanded recursively; the caller only logs them.

use vstd::prelude::*;

use crate::error::UpdateError;
use crate::refs::PdscRef;
use crate::refs::VidxRef;

verus! {

/// What the external parser yields for one vendor index.
pub struct ParsedVidx {
    pub vidx_refs: Vec<VidxRef>,
    pub pdsc_refs: Vec<PdscRef>,
}

/// The descriptor references one fetched index contributes: all of them for
/// a parsed index, none for a failed one.
pub open spec fn vidx_contribution(r: Result<ParsedVidx, UpdateError>) -> Seq<PdscRef> {
    match r {
        Ok(v) => v.pdsc_refs@,
        Err(_) => Seq::empty(),
    }
}

/// The concatenation, in order, of every index's contribution.
pub open spec fn spec_flatten_pdscs(s: Seq<Result<ParsedVidx, UpdateError>>) -> Seq<PdscRef>
    decreases s.len(),
{
    if s.len() == 0 {
        Seq::empty()
    } else {
        spec_flatten_pdscs(s.drop_last()) + vidx_contribution(s.last())
    }
}

/// How many indices failed and were dropped.
pub open spec fn spec_dropped_count(s: Seq<Result<ParsedVidx, UpdateError>>) -> int
    decreases s.len(),
{
    if s.len() == 0 {
        0int
    } else {
        spec_dropped_count(s.drop_last()) + if s.last() is Err {
            1int
        } else {
            0int
        }
    }
}

/// The dropped count never exceeds the index count.
proof fn lemma_dropped_count_bound(s: Seq<Result<ParsedVidx, UpdateError>>)
    ensures
        0 <= spec_dropped_count(s) <= s.len(),
    decreases s.len(),
{
    if s.len() > 0 {
        lemma_dropped_count_bound(s.drop_last());
    }
}

/// Flattens the fetch-and-parse results of all vendor indices into the
/// stream of descriptor references to download, in order, and counts the
/// indices that were dropped because fetching or parsing them failed.
pub fn flatmap_pdscs(parsed: Vec<Result<ParsedVidx, UpdateError>>) -> (r: (Vec<PdscRef>, usize))
    ensures
        r.0@ == spec_flatten_pdscs(parsed@),
        r.1 as int == spec_dropped_count(parsed@),
{
    let ghost orig = parsed@;
    let mut rest = parsed;
    let total = rest.len();
    let mut out: Vec<PdscRef> = Vec::new();
    let mut dropped: usize = 0;
    let mut k: usize = 0;
    proof {
        assert(orig.subrange(0, 0) =~= Seq::<Result<ParsedVidx, UpdateError>>::empty());
    }
    while rest.len() > 0
        invariant
            total == orig.len(),
            dropped <= k,
            k + rest@.len() == orig.len(),
            rest@ == orig.subrange(k as int, orig.len() as int),
            out@ == spec_flatten_pdscs(orig.subrange(0, k as int)),
            dropped as int == spec_dropped_count(orig.subrange(0, k as int)),
        decreases rest@.len(),
    {
        let head = rest.remove(0);
        proof {
            assert(orig.subrange(0, k + 1).drop_last() =~= orig.subrange(0, k as int));
            assert(orig.subrange(0, k + 1).last() == orig[k as int]);
            assert(head == orig[k as int]) by {
                assert(orig.subrange(k as int, orig.len() as int)[0] == orig[k as int]);
            }
            lemma_dropped_count_bound(orig.subrange(0, k as int));
            assert(rest@ =~= orig.subrange(k + 1, orig.len() as int));
        }
        match head {
            Ok(v) => {
                let mut refs = v.pdsc_refs;
                out.append(&mut refs);
            },
            Err(_) => {
                dropped = dropped + 1;
            },
        }
        k = k + 1;
    }
    proof {
        assert(orig.subrange(0, orig.len() as int) =~= orig);
    }
    (out, dropped)
}

} // verus!
