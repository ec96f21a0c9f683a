//! Quorum certificates: threshold-signed prepare and commit certificates, and
//! the certificate that installs a new view.
use crate::codec::digest_eq;
use crate::pbft::message::{canonical_vote_bytes, vote_bytes};
use crate::table::NodeTable;
use crate::threshold_bls::{bls_valid, ids_fit, threshold_valid, verify_bls_signature, verify_threshold_table};
use std::collections::HashMap;
use vstd::prelude::*;

verus! {

broadcast use vstd::std_specs::hash::group_hash_axioms;

/// The view, sequence number, digest and partial signatures of a prepared certificate.
pub open spec fn prepared_parts(c: PreparedCertificate) -> (u64, u64, [u8; 32], Seq<(u32, [u8; 48])>) {
    (c.view, c.seq, c.digest, c.signatures@)
}

/// Prepared-certificate parts are valid when the signatures pass the
/// threshold check on the prepare vote bytes.
pub open spec fn prepared_parts_valid(p: (u64, u64, [u8; 32], Seq<(u32, [u8; 48])>), q: nat, mpk: Seq<u8>) -> bool {
    threshold_valid(vote_bytes(1, p.0, p.1, p.2@), p.3, mpk, q)
}

/// A prepared certificate is valid when its signatures pass the threshold
/// check on the prepare vote bytes.
pub open spec fn prepared_cert_valid(c: PreparedCertificate, q: nat, mpk: Seq<u8>) -> bool {
    prepared_parts_valid(prepared_parts(c), q, mpk)
}

/// A commit certificate is valid when its signatures pass the threshold check
/// on the commit vote bytes.
pub open spec fn commit_cert_valid(c: CommitCertificate, q: nat, mpk: Seq<u8>) -> bool {
    threshold_valid(vote_bytes(2, c.view, c.seq, c.digest@), c.signatures@, mpk, q)
}

/// Partial signatures of a quorum on a prepare vote.
pub struct PreparedCertificate {
    pub view: u64,
    pub seq: u64,
    pub digest: [u8; 32],
    pub signatures: NodeTable<[u8; 48]>,
}

impl PreparedCertificate {
    /// Checks the threshold signature of the certificate's prepare vote.
    pub fn verify(&self, quorum_size: usize, master_pk: &[u8; 96]) -> (r: bool)
        requires
            self.signatures.wf(),
            self.signatures@.len() >= quorum_size ==> ids_fit(self.signatures@, quorum_size as nat),
        ensures
            r == prepared_cert_valid(*self, quorum_size as nat, master_pk@),
    {
        let canonical_msg = canonical_vote_bytes(1, self.view, self.seq, &self.digest);
        verify_threshold_table(canonical_msg.as_slice(), &self.signatures, master_pk, quorum_size)
    }

    /// An identical certificate.
    pub fn duplicate(&self) -> (r: Self)
        ensures
            r.view == self.view,
            r.seq == self.seq,
            r.digest == self.digest,
            r.signatures@ == self.signatures@,
    {
        PreparedCertificate {
            view: self.view,
            seq: self.seq,
            digest: self.digest,
            signatures: self.signatures.copy(),
        }
    }
}

/// Partial signatures of a quorum on a commit vote.
pub struct CommitCertificate {
    pub view: u64,
    pub seq: u64,
    pub digest: [u8; 32],
    pub signatures: NodeTable<[u8; 48]>,
}

impl CommitCertificate {
    /// Checks the threshold signature of the certificate's commit vote.
    pub fn verify(&self, quorum_size: usize, master_pk: &[u8; 96]) -> (r: bool)
        requires
            self.signatures.wf(),
            self.signatures@.len() >= quorum_size ==> ids_fit(self.signatures@, quorum_size as nat),
        ensures
            r == commit_cert_valid(*self, quorum_size as nat, master_pk@),
    {
        let canonical_msg = canonical_vote_bytes(2, self.view, self.seq, &self.digest);
        verify_threshold_table(canonical_msg.as_slice(), &self.signatures, master_pk, quorum_size)
    }
}

/// The highest sequence number among view-change votes (zero when there are none).
pub open spec fn max_vote_seq(votes: Seq<(u32, (u64, [u8; 32], [u8; 48]))>) -> u64
    decreases votes.len(),
{
    if votes.len() == 0 {
        0
    } else {
        let m = max_vote_seq(votes.drop_last());
        let s = votes.last().1.0;
        if s > m {
            s
        } else {
            m
        }
    }
}

/// The digest of the first vote (in node order) with sequence number `s`.
pub open spec fn first_digest_with_seq(votes: Seq<(u32, (u64, [u8; 32], [u8; 48]))>, s: u64) -> Option<[u8; 32]>
    decreases votes.len(),
{
    if votes.len() == 0 {
        None
    } else if votes[0].1.0 == s {
        Some(votes[0].1.1)
    } else {
        first_digest_with_seq(votes.drop_first(), s)
    }
}

/// The digest that a new view must carry forward: that of the first vote with
/// the highest sequence number, or all zeros when there are no votes.
pub open spec fn best_vote_digest(votes: Seq<(u32, (u64, [u8; 32], [u8; 48]))>) -> [u8; 32] {
    match first_digest_with_seq(votes, max_vote_seq(votes)) {
        Some(d) => d,
        None => vstd::array::spec_array_fill_for_copy_type::<u8, 32>(0u8),
    }
}

/// The number of view-change votes whose signature on (ViewChange, target
/// view, sequence number, digest) is valid for the voter's registered key.
pub open spec fn count_valid_votes(
    target_view: u64,
    votes: Seq<(u32, (u64, [u8; 32], [u8; 48]))>,
    pks: Map<u32, [u8; 96]>,
) -> nat
    decreases votes.len(),
{
    if votes.len() == 0 {
        0
    } else {
        let e = votes.last();
        let ok = pks.contains_key(e.0) && bls_valid(
            vote_bytes(3, target_view, e.1.0, e.1.1@),
            e.1.2@,
            pks[e.0]@,
        );
        count_valid_votes(target_view, votes.drop_last(), pks) + if ok {
            1nat
        } else {
            0nat
        }
    }
}

/// The votes of `votes` that are signed, under their voter's registered key,
/// over the view-change bytes of `target_view` and the vote's own sequence
/// number and digest.
pub open spec fn correctly_signed_votes(
    target_view: u64,
    votes: Seq<(u32, (u64, [u8; 32], [u8; 48]))>,
    pks: Map<u32, [u8; 96]>,
) -> Seq<(u32, (u64, [u8; 32], [u8; 48]))> {
    votes.filter(signed_vote(target_view, pks))
}

/// Whether a vote is signed, under its voter's registered key, over the
/// view-change bytes of `target_view` and its sequence number and digest.
pub open spec fn signed_vote(target_view: u64, pks: Map<u32, [u8; 96]>) -> spec_fn(
    (u32, (u64, [u8; 32], [u8; 48])),
) -> bool {
    |e: (u32, (u64, [u8; 32], [u8; 48]))|
        pks.contains_key(e.0) && bls_valid(vote_bytes(3, target_view, e.1.0, e.1.1@), e.1.2@, pks[e.0]@)
}

proof fn lemma_count_is_signed_votes(
    target_view: u64,
    votes: Seq<(u32, (u64, [u8; 32], [u8; 48]))>,
    pks: Map<u32, [u8; 96]>,
)
    ensures
        count_valid_votes(target_view, votes, pks) == correctly_signed_votes(target_view, votes, pks).len(),
    decreases votes.len(),
{
    reveal(Seq::filter);
    if votes.len() > 0 {
        lemma_count_is_signed_votes(target_view, votes.drop_last(), pks);
    }
}

/// A valid new-view certificate holds at least a quorum of votes signed,
/// under the voter's registered key, over (view change, target view, the
/// vote's sequence number, the vote's digest); it holds a quorum of votes in
/// all; and it carries a prepared certificate exactly when the highest voted
/// sequence number is not zero, one for that number with a valid threshold
/// signature.
pub proof fn law_new_view_needs_signed_quorum(
    c: NewViewCertificate,
    q: nat,
    mpk: Seq<u8>,
    pks: Map<u32, [u8; 96]>,
)
    requires
        new_view_valid(c, q, mpk, pks),
    ensures
        correctly_signed_votes(c.target_view, c.view_change_votes@, pks).len() >= q,
        forall|i: int|
            0 <= i < correctly_signed_votes(c.target_view, c.view_change_votes@, pks).len() ==> {
                let e = #[trigger] correctly_signed_votes(c.target_view, c.view_change_votes@, pks)[i];
                &&& c.view_change_votes@.contains(e)
                &&& pks.contains_key(e.0)
                &&& bls_valid(vote_bytes(3, c.target_view, e.1.0, e.1.1@), e.1.2@, pks[e.0]@)
            },
        c.view_change_votes@.len() >= q,
        c.selected_prepared_certificate is None ==> max_vote_seq(c.view_change_votes@) == 0,
        c.selected_prepared_certificate matches Some(p) ==> p.seq == max_vote_seq(c.view_change_votes@)
            && prepared_cert_valid(p, q, mpk),
{
    lemma_count_is_signed_votes(c.target_view, c.view_change_votes@, pks);
    let f = signed_vote(c.target_view, pks);
    let sv = correctly_signed_votes(c.target_view, c.view_change_votes@, pks);
    assert forall|i: int| 0 <= i < sv.len() implies {
        let e = #[trigger] sv[i];
        &&& c.view_change_votes@.contains(e)
        &&& pks.contains_key(e.0)
        &&& bls_valid(vote_bytes(3, c.target_view, e.1.0, e.1.1@), e.1.2@, pks[e.0]@)
    } by {
        c.view_change_votes@.lemma_filter_pred(f, i);
        assert(sv.contains(sv[i]));
        c.view_change_votes@.lemma_filter_contains_rev(f, sv[i]);
    }
}

/// A new view with these votes and this carried prepared certificate is valid
/// when it has a quorum of votes, carries the prepared certificate that matches
/// the highest voted sequence number (or none when that number is zero), and a
/// quorum of its votes are correctly signed by registered nodes.
pub open spec fn new_view_parts_valid(
    target_view: u64,
    votes: Seq<(u32, (u64, [u8; 32], [u8; 48]))>,
    selected: Option<(u64, u64, [u8; 32], Seq<(u32, [u8; 48])>)>,
    q: nat,
    mpk: Seq<u8>,
    pks: Map<u32, [u8; 96]>,
) -> bool {
    &&& votes.len() >= q
    &&& match selected {
        Some(cert) => {
            &&& prepared_parts_valid(cert, q, mpk)
            &&& cert.1 == max_vote_seq(votes)
            &&& cert.2 == best_vote_digest(votes)
        },
        None => max_vote_seq(votes) == 0,
    }
    &&& count_valid_votes(target_view, votes, pks) >= q
}

/// A new-view certificate is valid when its parts are.
pub open spec fn new_view_valid(
    c: NewViewCertificate,
    q: nat,
    mpk: Seq<u8>,
    pks: Map<u32, [u8; 96]>,
) -> bool {
    new_view_parts_valid(
        c.target_view,
        c.view_change_votes@,
        match c.selected_prepared_certificate {
            Some(x) => Some(prepared_parts(x)),
            None => None,
        },
        q,
        mpk,
        pks,
    )
}

/// The votes that move the replicas to a new view, with the prepared
/// certificate carried into it.
pub struct NewViewCertificate {
    pub target_view: u64,
    pub view_change_votes: NodeTable<(u64, [u8; 32], [u8; 48])>,
    pub selected_prepared_certificate: Option<PreparedCertificate>,
}

/// The highest sequence number among the votes.
pub fn vote_max_seq(votes: &NodeTable<(u64, [u8; 32], [u8; 48])>) -> (r: u64)
    ensures
        r == max_vote_seq(votes@),
{
    let mut m: u64 = 0;
    let mut i: usize = 0;
    while i < votes.len()
        invariant
            0 <= i <= votes@.len(),
            m == max_vote_seq(votes@.subrange(0, i as int)),
        decreases votes@.len() - i,
    {
        let (_, (s, _, _)) = votes.entry(i);
        assert(votes@.subrange(0, i + 1).drop_last() =~= votes@.subrange(0, i as int));
        if s > m {
            m = s;
        }
        i = i + 1;
    }
    assert(votes@.subrange(0, votes@.len() as int) =~= votes@);
    m
}

proof fn lemma_first_digest_skip(votes: Seq<(u32, (u64, [u8; 32], [u8; 48]))>, s: u64, i: int)
    requires
        0 <= i <= votes.len(),
        forall|j: int| 0 <= j < i ==> (#[trigger] votes[j]).1.0 != s,
    ensures
        first_digest_with_seq(votes, s) == first_digest_with_seq(votes.subrange(i, votes.len() as int), s),
    decreases i,
{
    if i > 0 {
        let rest = votes.drop_first();
        assert forall|j: int| 0 <= j < i - 1 implies (#[trigger] rest[j]).1.0 != s by {
            assert(rest[j] == votes[j + 1]);
        }
        lemma_first_digest_skip(rest, s, i - 1);
        assert(rest.subrange(i - 1, rest.len() as int) =~= votes.subrange(i, votes.len() as int));
    } else {
        assert(votes.subrange(0, votes.len() as int) =~= votes);
    }
}

/// The digest that a new view must carry forward.
pub fn vote_best_digest(votes: &NodeTable<(u64, [u8; 32], [u8; 48])>, max_seq: u64) -> (r: [u8; 32])
    requires
        max_seq == max_vote_seq(votes@),
    ensures
        r == best_vote_digest(votes@),
{
    let mut i: usize = 0;
    while i < votes.len()
        invariant
            0 <= i <= votes@.len(),
            max_seq == max_vote_seq(votes@),
            forall|j: int| 0 <= j < i ==> (#[trigger] votes@[j]).1.0 != max_seq,
        decreases votes@.len() - i,
    {
        let (_, (s, d, _)) = votes.entry(i);
        if s == max_seq {
            proof {
                lemma_first_digest_skip(votes@, max_seq, i as int);
            }
            return d;
        }
        i = i + 1;
    }
    proof {
        lemma_first_digest_skip(votes@, max_seq, i as int);
    }
    [0u8; 32]
}

impl NewViewCertificate {
    /// Checks the certificate against the quorum size, the master public key
    /// and the registered public keys.
    pub fn verify(&self, quorum_size: usize, master_pk: &[u8; 96], public_keys: &HashMap<u32, [u8; 96]>) -> (r: bool)
        requires
            self.selected_prepared_certificate matches Some(c) ==> c.signatures.wf() && (
            c.signatures@.len() >= quorum_size ==> ids_fit(c.signatures@, quorum_size as nat)),
        ensures
            r == new_view_valid(*self, quorum_size as nat, master_pk@, public_keys@),
    {
        let votes = &self.view_change_votes;
        if votes.len() < quorum_size {
            return false;
        }
        let max_quorum_seq = vote_max_seq(votes);
        let best_digest = vote_best_digest(votes, max_quorum_seq);
        match &self.selected_prepared_certificate {
            Some(cert) => {
                if !cert.verify(quorum_size, master_pk) {
                    return false;
                }
                if cert.seq != max_quorum_seq || !digest_eq(&cert.digest, &best_digest) {
                    return false;
                }
            },
            None => {
                if max_quorum_seq > 0 {
                    return false;
                }
            },
        }
        let mut valid_count: usize = 0;
        let mut i: usize = 0;
        while i < votes.len()
            invariant
                0 <= i <= votes@.len(),
                valid_count == count_valid_votes(self.target_view, votes@.subrange(0, i as int), public_keys@),
                valid_count <= i,
            decreases votes@.len() - i,
        {
            let (node_id, (seq, digest, sig)) = votes.entry(i);
            assert(votes@.subrange(0, i + 1).drop_last() =~= votes@.subrange(0, i as int));
            match public_keys.get(&node_id) {
                Some(pk) => {
                    let canonical_msg = canonical_vote_bytes(3, self.target_view, seq, &digest);
                    if verify_bls_signature(canonical_msg.as_slice(), &sig, pk) {
                        valid_count = valid_count + 1;
                    }
                },
                None => {},
            }
            i = i + 1;
        }
        assert(votes@.subrange(0, votes@.len() as int) =~= votes@);
        valid_count >= quorum_size
    }
}

} // verus!
