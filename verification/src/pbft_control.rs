//! A local PBFT control experiment set beside an external witness.
//!
//! Four sender labels are taken as test inputs only: they are not treated as
//! PBFT votes, signatures or finality evidence.
use crate::curve::g2_generator_mul;
use crate::pbft::{PbftMessage, PbftState};
use crate::scalar::scalar_one;
use std::collections::HashMap;
use vstd::prelude::*;
use vstd::string::StringSliceAdditionalSpecFns;

verus! {

broadcast use vstd::std_specs::hash::group_hash_axioms;

/// What the control experiment reports.
#[derive(Debug, PartialEq, Eq)]
pub struct ControlResult {
    pub witness_digest: String,
    pub senders: Vec<u32>,
    pub unique_senders: usize,
    pub one_replacement_from_control: bool,
    pub all_four_distinct: bool,
    pub pbft_quorum_size: usize,
    pub topology_accepted: bool,
    pub truncated_frame_rejected: bool,
    pub invalid_phase_rejected: bool,
}

/// A lowercase hexadecimal digit: `0`-`9` or `a`-`f`.
pub open spec fn is_lower_hex(b: u8) -> bool {
    (48 <= b && b <= 57) || (97 <= b && b <= 102)
}

/// Sixty-four lowercase hexadecimal digits.
pub open spec fn lower_hex_digest(b: Seq<u8>) -> bool {
    &&& b.len() == 64
    &&& forall|i: int| 0 <= i < b.len() ==> is_lower_hex(#[trigger] b[i])
}

/// The pieces of `b` between commas, the current piece starting at `start`
/// and the scan standing at `i`.
pub open spec fn split_from(b: Seq<u8>, start: int, i: int) -> Seq<Seq<u8>>
    decreases b.len() - i,
{
    if i >= b.len() {
        seq![b.subrange(start, b.len() as int)]
    } else if b[i] == 44u8 {
        seq![b.subrange(start, i)] + split_from(b, i + 1, i + 1)
    } else {
        split_from(b, start, i + 1)
    }
}

/// The pieces of `b` between commas (an empty input is one empty piece).
pub open spec fn split_commas(b: Seq<u8>) -> Seq<Seq<u8>> {
    split_from(b, 0, 0)
}

/// The sender that a label names: `v0` to `v3`.
pub open spec fn sender_label(p: Seq<u8>) -> Option<u32> {
    if p == seq![118u8, 48u8] {
        Some(0u32)
    } else if p == seq![118u8, 49u8] {
        Some(1u32)
    } else if p == seq![118u8, 50u8] {
        Some(2u32)
    } else if p == seq![118u8, 51u8] {
        Some(3u32)
    } else {
        None
    }
}

/// Every piece is a sender label.
pub open spec fn all_labels(ps: Seq<Seq<u8>>) -> bool {
    forall|i: int| 0 <= i < ps.len() ==> (#[trigger] sender_label(ps[i])) is Some
}

/// The senders that the pieces name.
pub open spec fn label_ids(ps: Seq<Seq<u8>>) -> Seq<u32> {
    ps.map_values(|p: Seq<u8>| sender_label(p).unwrap())
}

/// The number of positions `i` at which sender `i` was replaced.
pub open spec fn replacements(s: Seq<u32>) -> nat
    decreases s.len(),
{
    if s.len() == 0 {
        0
    } else {
        replacements(s.drop_last()) + if s.last() != s.len() - 1 {
            1nat
        } else {
            0nat
        }
    }
}

/// The ranges `r` cut the pieces `ps` out of `b`.
pub open spec fn ranges_match(b: Seq<u8>, r: Seq<(usize, usize)>, ps: Seq<Seq<u8>>) -> bool {
    &&& r.len() == ps.len()
    &&& forall|k: int|
        0 <= k < r.len() ==> {
            &&& (#[trigger] r[k]).0 <= r[k].1 <= b.len()
            &&& b.subrange(r[k].0 as int, r[k].1 as int) == ps[k]
        }
}

/// The one shape with a single replacement that is still refused:
/// `v0,v1,v3,v3`, where the third sender is replaced by the fourth.
pub open spec fn refused_shape(s: Seq<u32>) -> bool {
    s == seq![0u32, 1u32, 3u32, 3u32]
}

/// Whether the senders are `v0,v1,v3,v3`.
fn is_refused_shape(s: &Vec<u32>) -> (r: bool)
    requires
        s@.len() == 4,
    ensures
        r == refused_shape(s@),
{
    let r = s[0] == 0 && s[1] == 1 && s[2] == 3 && s[3] == 3;
    proof {
        if r {
            assert(s@ =~= seq![0u32, 1u32, 3u32, 3u32]);
        } else if refused_shape(s@) {
            assert(s@[0] == 0 && s@[1] == 1 && s@[2] == 3 && s@[3] == 3);
        }
    }
    r
}

/// Splits `b` at its commas, as ranges of positions.
fn split_ranges(b: &[u8]) -> (r: Vec<(usize, usize)>)
    ensures
        ranges_match(b@, r@, split_commas(b@)),
{
    let mut r: Vec<(usize, usize)> = Vec::new();
    let mut start: usize = 0;
    let mut i: usize = 0;
    let ghost mut pieces: Seq<Seq<u8>> = seq![];
    while i < b.len()
        invariant
            start <= i <= b.len(),
            ranges_match(b@, r@, pieces),
            pieces + split_from(b@, start as int, i as int) == split_commas(b@),
        decreases b.len() - i,
    {
        if b[i] == 44u8 {
            let ghost piece = b@.subrange(start as int, i as int);
            assert(split_from(b@, start as int, i as int) == seq![piece] + split_from(
                b@,
                i + 1,
                i + 1,
            ));
            assert(pieces.push(piece) + split_from(b@, i + 1, i + 1) =~= pieces + (seq![piece]
                + split_from(b@, i + 1, i + 1)));
            let ghost old_r = r@;
            r.push((start, i));
            proof {
                let old_pieces = pieces;
                pieces = pieces.push(piece);
                assert forall|k: int| 0 <= k < r@.len() implies {
                    &&& (#[trigger] r@[k]).0 <= r@[k].1 <= b@.len()
                    &&& b@.subrange(r@[k].0 as int, r@[k].1 as int) == pieces[k]
                } by {
                    if k < old_r.len() {
                        assert(r@[k] == old_r[k]);
                        assert(pieces[k] == old_pieces[k]);
                    }
                }
            }
            start = i + 1;
        } else {
            assert(split_from(b@, start as int, i as int) == split_from(b@, start as int, i + 1));
        }
        i = i + 1;
    }
    assert(split_from(b@, start as int, i as int) == seq![b@.subrange(start as int, b@.len() as int)]);
    let ghost old_r = r@;
    r.push((start, i));
    proof {
        let old_pieces = pieces;
        pieces = pieces.push(b@.subrange(start as int, i as int));
        assert(pieces =~= split_commas(b@));
        assert forall|k: int| 0 <= k < r@.len() implies {
            &&& (#[trigger] r@[k]).0 <= r@[k].1 <= b@.len()
            &&& b@.subrange(r@[k].0 as int, r@[k].1 as int) == pieces[k]
        } by {
            if k < old_r.len() {
                assert(r@[k] == old_r[k]);
                assert(pieces[k] == old_pieces[k]);
            }
        }
    }
    r
}

/// Whether `b[lo..hi]` is `v` followed by the digit `d`.
fn is_label(b: &[u8], lo: usize, hi: usize, d: u8) -> (r: bool)
    requires
        lo <= hi <= b@.len(),
    ensures
        r == (b@.subrange(lo as int, hi as int) == seq![118u8, d]),
{
    if hi - lo != 2 {
        proof {
            assert(b@.subrange(lo as int, hi as int).len() != seq![118u8, d].len());
        }
        return false;
    }
    let r = b[lo] == 118u8 && b[lo + 1] == d;
    proof {
        if r {
            assert(b@.subrange(lo as int, hi as int) =~= seq![118u8, d]);
        } else {
            let p = b@.subrange(lo as int, hi as int);
            assert(p[0] != seq![118u8, d][0] || p[1] != seq![118u8, d][1]);
        }
    }
    r
}

/// The sender named by `b[lo..hi]`, if it is a label.
fn parse_label(b: &[u8], lo: usize, hi: usize) -> (r: Option<u32>)
    requires
        lo <= hi <= b@.len(),
    ensures
        r == sender_label(b@.subrange(lo as int, hi as int)),
{
    if is_label(b, lo, hi, 48u8) {
        Some(0)
    } else if is_label(b, lo, hi, 49u8) {
        Some(1)
    } else if is_label(b, lo, hi, 50u8) {
        Some(2)
    } else if is_label(b, lo, hi, 51u8) {
        Some(3)
    } else {
        None
    }
}

/// The number of distinct values among `s`.
fn count_distinct(s: &Vec<u32>) -> (r: usize)
    ensures
        r == s@.to_set().len(),
{
    broadcast use vstd::set::group_set_axioms, vstd::seq_lib::seq_to_set_is_finite;

    let mut count: usize = 0;
    let mut i: usize = 0;
    assert(s@.subrange(0, 0).to_set() =~= Set::<u32>::empty());
    while i < s.len()
        invariant
            i <= s@.len(),
            count == s@.subrange(0, i as int).to_set().len(),
            count <= i,
        decreases s.len() - i,
    {
        let mut seen = false;
        let mut j: usize = 0;
        while j < i
            invariant
                j <= i < s@.len(),
                seen == (exists|k: int| 0 <= k < j && s@[k] == s@[i as int]),
            decreases i - j,
        {
            if s[j] == s[i] {
                seen = true;
            }
            j = j + 1;
        }
        let ghost pre = s@.subrange(0, i as int);
        assert(s@.subrange(0, i + 1) =~= pre.push(s@[i as int]));
        proof {
            pre.lemma_push_to_set_commute(s@[i as int]);
        }
        assert(pre.to_set().contains(s@[i as int]) == seen) by {
            if seen {
                let k = choose|k: int| 0 <= k < i && s@[k] == s@[i as int];
                assert(pre[k] == s@[i as int]);
            }
        }
        if !seen {
            count = count + 1;
        }
        i = i + 1;
    }
    assert(s@.subrange(0, s@.len() as int) =~= s@);
    count
}

/// The number of positions `i` at which `s[i] != i`.
fn count_replacements(s: &Vec<u32>) -> (r: usize)
    ensures
        r == replacements(s@),
{
    let mut count: usize = 0;
    let mut i: usize = 0;
    while i < s.len()
        invariant
            i <= s@.len(),
            count == replacements(s@.subrange(0, i as int)),
            count <= i,
        decreases s.len() - i,
    {
        assert(s@.subrange(0, i + 1).drop_last() =~= s@.subrange(0, i as int));
        if (s[i] as usize) != i {
            count = count + 1;
        }
        i = i + 1;
    }
    assert(s@.subrange(0, s@.len() as int) =~= s@);
    count
}

/// Runs the control experiment: checks the external witness digest and the
/// four sender labels, sets up a four-node replica and checks that malformed
/// frames are refused.
pub fn run_pbft_control(witness_digest: &str, sender_csv: &str) -> (r: Result<ControlResult, String>)
    ensures
        !lower_hex_digest(witness_digest.spec_bytes()) ==> (r matches Err(e) && e@
            == "Expected lowercase 64-character external witness SHA-256"@),
        lower_hex_digest(witness_digest.spec_bytes()) && split_commas(sender_csv.spec_bytes()).len()
            != 4 ==> (r matches Err(e) && e@ == "Expected four external sender labels"@),
        lower_hex_digest(witness_digest.spec_bytes()) && split_commas(sender_csv.spec_bytes()).len()
            == 4 && !all_labels(split_commas(sender_csv.spec_bytes())) ==> (r matches Err(e) && e@
            == "Unknown external sender label"@),
        ({
            let ids = label_ids(split_commas(sender_csv.spec_bytes()));
            lower_hex_digest(witness_digest.spec_bytes()) && split_commas(sender_csv.spec_bytes()).len()
                == 4 && all_labels(split_commas(sender_csv.spec_bytes())) && (ids.to_set().len() != 3
                || replacements(ids) != 1 || refused_shape(ids)) ==> (r matches Err(e) && e@
                == "Expected the bounded M27 one-replacement, three-sender case"@)
        }),
        ({
            let ids = label_ids(split_commas(sender_csv.spec_bytes()));
            lower_hex_digest(witness_digest.spec_bytes()) && split_commas(sender_csv.spec_bytes()).len()
                == 4 && all_labels(split_commas(sender_csv.spec_bytes())) && ids.to_set().len() == 3
                && replacements(ids) == 1 && !refused_shape(ids) ==> (r matches Ok(c) && c.witness_digest@ == witness_digest@
                && c.senders@ == ids && c.unique_senders == 3 && c.one_replacement_from_control
                && !c.all_four_distinct && c.pbft_quorum_size == 3 && c.topology_accepted
                && c.truncated_frame_rejected && c.invalid_phase_rejected)
        }),
{
    let digest = witness_digest.as_bytes();
    if digest.len() != 64 {
        return Err("Expected lowercase 64-character external witness SHA-256".to_owned());
    }
    let mut i: usize = 0;
    while i < digest.len()
        invariant
            i <= digest@.len(),
            digest@ == witness_digest.spec_bytes(),
            forall|k: int| 0 <= k < i ==> is_lower_hex(#[trigger] digest@[k]),
        decreases digest.len() - i,
    {
        let b = digest[i];
        if !((48u8 <= b && b <= 57u8) || (97u8 <= b && b <= 102u8)) {
            return Err("Expected lowercase 64-character external witness SHA-256".to_owned());
        }
        i = i + 1;
    }
    assert(lower_hex_digest(witness_digest.spec_bytes()));
    let csv = sender_csv.as_bytes();
    let ranges = split_ranges(csv);
    if ranges.len() != 4 {
        return Err("Expected four external sender labels".to_owned());
    }
    let ghost pieces = split_commas(csv@);
    let mut senders: Vec<u32> = Vec::new();
    let mut k: usize = 0;
    while k < ranges.len()
        invariant
            k <= ranges@.len() == pieces.len() == 4,
            pieces == split_commas(csv@),
            csv@ == sender_csv.spec_bytes(),
            lower_hex_digest(witness_digest.spec_bytes()),
            ranges_match(csv@, ranges@, pieces),
            senders@.len() == k,
            forall|j: int| 0 <= j < k ==> (#[trigger] sender_label(pieces[j])) is Some,
            senders@ =~= label_ids(pieces).subrange(0, k as int),
        decreases ranges.len() - k,
    {
        let (lo, hi) = ranges[k];
        assert(ranges@[k as int] == (lo, hi));
        match parse_label(csv, lo, hi) {
            Some(id) => {
                senders.push(id);
            },
            None => {
                assert(sender_label(pieces[k as int]) is None);
                return Err("Unknown external sender label".to_owned());
            },
        }
        k = k + 1;
    }
    assert(label_ids(pieces).subrange(0, 4) =~= label_ids(pieces));
    let unique_senders = count_distinct(&senders);
    let replaced = count_replacements(&senders);
    let one_replacement_from_control = replaced == 1;
    if unique_senders != 3 || !one_replacement_from_control || is_refused_shape(&senders) {
        return Err("Expected the bounded M27 one-replacement, three-sender case".to_owned());
    }
    let generator = g2_generator_mul(&scalar_one());
    let mut keys: HashMap<u32, [u8; 96]> = HashMap::new();
    keys.insert(0, generator);
    keys.insert(1, generator);
    keys.insert(2, generator);
    keys.insert(3, generator);
    assert(forall|id: u32| id < 4u32 ==> keys@.contains_key(id));
    let state = match PbftState::new(4, keys, generator) {
        Ok(s) => s,
        Err(_) => {
            return vstd::pervasive::unreached();
        },
    };
    let truncated_frame_rejected = PbftMessage::from_bytes(&vec![0u8; 50]).is_err();
    let mut invalid_phase_frame = vec![0u8; 101];
    invalid_phase_frame.set(0, 99u8);
    let invalid_phase_rejected = PbftMessage::from_bytes(&invalid_phase_frame).is_err();
    if !truncated_frame_rejected || !invalid_phase_rejected || state.quorum_size != 3
        || state.total_nodes != 4 {
        return Err("PBFT local control invariant did not hold".to_owned());
    }
    Ok(
        ControlResult {
            witness_digest: witness_digest.to_owned(),
            senders,
            unique_senders,
            one_replacement_from_control,
            all_four_distinct: unique_senders == 4,
            pbft_quorum_size: state.quorum_size,
            topology_accepted: true,
            truncated_frame_rejected,
            invalid_phase_rejected,
        },
    )
}

} // verus!
