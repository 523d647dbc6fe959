//! Depth normalization of a raw heading-level sequence.
//!
//! Headings that skip levels (for instance a level-1 heading directly
//! followed by a level-4 heading) are pulled up to be exactly one level
//! deeper than their predecessor; headings that stay at the same depth,
//! go shallower, or deepen by exactly one pass through unchanged and
//! become the new baseline.

use vstd::prelude::*;

verus! {

/// Normalized levels of `raw` when the running baseline is `last`.
///
/// A heading deeper than `last + 1` is clamped to `last + 1` and the
/// baseline is kept; any other heading passes through and becomes the
/// new baseline.
pub open spec fn normalize_from(raw: Seq<u32>, last: u32) -> Seq<u32>
    decreases raw.len(),
{
    if raw.len() == 0 {
        Seq::empty()
    } else if last + 1 < raw[0] {
        seq![(last + 1) as u32] + normalize_from(raw.skip(1), last)
    } else {
        seq![raw[0]] + normalize_from(raw.skip(1), raw[0])
    }
}

/// Normalized levels of a whole document: the baseline starts at the
/// first heading's raw level, so the first heading is never rewritten.
pub open spec fn normalize_spec(raw: Seq<u32>) -> Seq<u32> {
    if raw.len() == 0 {
        Seq::empty()
    } else {
        normalize_from(raw, raw[0])
    }
}

proof fn lemma_normalize_from_len(raw: Seq<u32>, last: u32)
    ensures
        normalize_from(raw, last).len() == raw.len(),
    decreases raw.len(),
{
    if raw.len() > 0 {
        if last + 1 < raw[0] {
            lemma_normalize_from_len(raw.skip(1), last);
        } else {
            lemma_normalize_from_len(raw.skip(1), raw[0]);
        }
    }
}

/// The normalized sequence is exactly as long as the raw one.
pub proof fn lemma_normalize_len(raw: Seq<u32>)
    ensures
        normalize_spec(raw).len() == raw.len(),
{
    if raw.len() > 0 {
        lemma_normalize_from_len(raw, raw[0]);
    }
}

/// The first heading's normalized level equals its raw level: there is
/// no forced reset to level 1.
pub proof fn lemma_first_level_kept(raw: Seq<u32>)
    requires
        raw.len() > 0,
    ensures
        normalize_spec(raw).len() == raw.len(),
        normalize_spec(raw)[0] == raw[0],
{
    lemma_normalize_len(raw);
}

proof fn lemma_normalize_from_props(raw: Seq<u32>, last: u32)
    requires
        1 <= last < u32::MAX,
        forall|i: int| 0 <= i < raw.len() ==> 1 <= #[trigger] raw[i] < u32::MAX,
    ensures
        normalize_from(raw, last).len() == raw.len(),
        forall|i: int| 0 <= i < raw.len() ==> 1 <= #[trigger] normalize_from(raw, last)[i],
        raw.len() > 0 ==> normalize_from(raw, last)[0] <= last + 1,
        forall|i: int|
            0 < i < raw.len() ==> #[trigger] normalize_from(raw, last)[i] <= normalize_from(
                raw,
                last,
            )[i - 1] + 1,
    decreases raw.len(),
{
    if raw.len() > 0 {
        let r = normalize_from(raw, last);
        if last + 1 < raw[0] {
            lemma_normalize_from_props(raw.skip(1), last);
            let tail = normalize_from(raw.skip(1), last);
            assert(r == seq![(last + 1) as u32] + tail);
            assert(raw.skip(1).len() > 0 ==> tail[0] <= last + 1);
            assert(forall|i: int| 0 < i < raw.len() ==> r[i] == tail[i - 1]);
        } else {
            lemma_normalize_from_props(raw.skip(1), raw[0]);
            let tail = normalize_from(raw.skip(1), raw[0]);
            assert(r == seq![raw[0]] + tail);
            assert(raw.skip(1).len() > 0 ==> tail[0] <= raw[0] + 1);
            assert(forall|i: int| 0 < i < raw.len() ==> r[i] == tail[i - 1]);
        }
    }
}

/// Normalized levels are always at least 1, and the sequence never
/// deepens by more than one level from one heading to the next, however
/// far the raw sequence jumped.
pub proof fn lemma_no_level_skips(raw: Seq<u32>)
    requires
        forall|i: int| 0 <= i < raw.len() ==> 1 <= #[trigger] raw[i] < u32::MAX,
    ensures
        normalize_spec(raw).len() == raw.len(),
        forall|i: int| 0 <= i < raw.len() ==> 1 <= #[trigger] normalize_spec(raw)[i],
        forall|i: int|
            0 < i < raw.len() ==> #[trigger] normalize_spec(raw)[i] <= normalize_spec(raw)[i - 1]
                + 1,
{
    if raw.len() > 0 {
        lemma_normalize_from_props(raw, raw[0]);
    }
}

/// One left-to-right pass over the raw levels, clamping any jump of more
/// than one level down to a single step.
pub fn normalize_levels(raw: &Vec<u32>) -> (out: Vec<u32>)
    requires
        forall|i: int| 0 <= i < raw@.len() ==> raw@[i] < u32::MAX,
    ensures
        out@ == normalize_spec(raw@),
{
    let mut out: Vec<u32> = Vec::new();
    if raw.len() == 0 {
        assert(out@ =~= normalize_spec(raw@));
        return out;
    }
    let mut last: u32 = raw[0];
    let mut i: usize = 0;
    proof {
        assert(raw@.skip(0) =~= raw@);
        assert(out@ + normalize_from(raw@, last) =~= normalize_from(raw@, last));
    }
    while i < raw.len()
        invariant
            0 <= i <= raw@.len(),
            raw@.len() > 0,
            forall|k: int| 0 <= k < raw@.len() ==> raw@[k] < u32::MAX,
            last < u32::MAX,
            out@.len() == i,
            normalize_spec(raw@) == out@ + normalize_from(raw@.skip(i as int), last),
        decreases raw@.len() - i,
    {
        let lvl = raw[i];
        let ghost rest = raw@.skip(i as int);
        let ghost out_old = out@;
        let ghost last_old = last;
        proof {
            assert(rest[0] == raw@[i as int]);
            assert(rest.skip(1) =~= raw@.skip(i as int + 1));
        }
        let v: u32;
        if last + 1 < lvl {
            v = last + 1;
        } else {
            v = lvl;
            last = lvl;
        }
        out.push(v);
        proof {
            assert(normalize_from(rest, last_old) == seq![v] + normalize_from(rest.skip(1), last));
            assert((out_old + seq![v]) + normalize_from(rest.skip(1), last) =~= out_old + (seq![v]
                + normalize_from(rest.skip(1), last)));
        }
        i += 1;
    }
    proof {
        assert(raw@.skip(raw@.len() as int) =~= Seq::<u32>::empty());
        assert(out@ + Seq::<u32>::empty() =~= out@);
    }
    out
}

} // verus!
