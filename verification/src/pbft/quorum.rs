//! What the replica guarantees: quorums of registered nodes overlap in more
//! than `f` nodes, leadership rotates through the nodes, every committed
//! digest stands on a valid commit certificate, refused messages leave the
//! replica as it was, and a commit needs a prepared certificate.
use crate::pbft::certificate::commit_cert_valid;
use crate::pbft::message::{PbftMessage, Phase};
use crate::pbft::state::PbftState;
use crate::table::{lemma_lookup_entry, seq_has_key};
use vstd::arithmetic::div_mod::{lemma_add_mod_noop, lemma_mod_self_0, lemma_mod_twice, lemma_small_mod};
use vstd::prelude::*;
use vstd::set_lib::{lemma_len_subset, lemma_set_intersect_union_lens};

verus! {

/// The node identifiers below `k`.
pub open spec fn ids_below(k: nat) -> Set<u32> {
    Set::new(|x: u32| x < k)
}

/// There are at most `k` identifiers below `k`, finitely many.
proof fn lemma_ids_below(k: nat)
    ensures
        ids_below(k).finite(),
        ids_below(k).len() <= k,
    decreases k,
{
    if k == 0 {
        assert(ids_below(k) =~= Set::<u32>::empty());
    } else {
        lemma_ids_below((k - 1) as nat);
        if k - 1 <= u32::MAX {
            assert(ids_below(k) =~= ids_below((k - 1) as nat).insert((k - 1) as u32));
        } else {
            assert(ids_below(k) =~= ids_below((k - 1) as nat));
        }
    }
}

/// Two quorums of a replica's nodes share at least `f + 1` nodes, so at least
/// one node that is not faulty.
pub proof fn law_quorum_intersection(s: PbftState, a: Set<u32>, b: Set<u32>)
    requires
        s.wf(),
        a.subset_of(ids_below(s.total_nodes as nat)),
        b.subset_of(ids_below(s.total_nodes as nat)),
        a.len() >= s.quorum_size,
        b.len() >= s.quorum_size,
    ensures
        a.intersect(b).len() >= s.f + 1,
{
    let all = ids_below(s.total_nodes as nat);
    lemma_ids_below(s.total_nodes as nat);
    lemma_len_subset(a, all);
    lemma_len_subset(b, all);
    lemma_len_subset(a + b, all);
    lemma_set_intersect_union_lens(a, b);
}

/// The leader of a view is a node; the next view is led by the next node,
/// wrapping round; and every node leads again after as many views as there
/// are nodes.
pub proof fn law_leader_round_robin(s: PbftState, v: u64)
    requires
        s.wf(),
        s.total_nodes <= u32::MAX + 1,
    ensures
        s.leader(v) < s.total_nodes,
        v < u64::MAX ==> s.leader((v + 1) as u64) == (s.leader(v) + 1) % (s.total_nodes as int),
        v + s.total_nodes <= u64::MAX ==> s.leader((v + s.total_nodes) as u64) == s.leader(v),
{
    let n = s.total_nodes as int;
    assert(0 <= v as int % n < n);
    if v < u64::MAX {
        if n == 1 {
            assert((v as int + 1) % 1 == 0);
            assert(((v as int % 1) + 1) % 1 == 0);
        } else {
            lemma_add_mod_noop(v as int, 1, n);
            lemma_small_mod(1, n as nat);
        }
    }
    if v + s.total_nodes <= u64::MAX {
        lemma_add_mod_noop(v as int, n, n);
        lemma_mod_self_0(n);
        assert((v as int % n) % n == v as int % n) by {
            lemma_mod_twice(v as int, n);
        }
    }
}

/// Every committed digest is backed by a valid commit certificate for the
/// same view, sequence number and digest.
pub proof fn law_committed_has_certificate(s: PbftState, view: u64, seq: u64)
    requires
        s.wf(),
        s.committed_digest.lookup((view, seq)) is Some,
    ensures
        s.commit_certificates.lookup((view, seq)) is Some,
        s.commit_certificates.lookup((view, seq)).unwrap().digest == s.committed_digest.lookup(
            (view, seq),
        ).unwrap(),
        commit_cert_valid(
            s.commit_certificates.lookup((view, seq)).unwrap(),
            s.quorum_size as nat,
            s.master_public_key@,
        ),
{
}

/// A refused message leaves the replica exactly as it was, except when a
/// certificate or a new view fails after the message's vote was recorded.
pub proof fn law_refusal_leaves_state_unchanged(
    pre: PbftState,
    m: PbftMessage,
    post: PbftState,
    r: Result<String, &'static str>,
)
    requires
        PbftState::message_step(pre, m, post, r),
        r is Err,
        r != Err::<String, &'static str>("CERTIFICATE_VERIFICATION_FAILED"),
        r != Err::<String, &'static str>("MISSING_QUORUM_CERTIFICATE"),
        r != Err::<String, &'static str>("NEW_VIEW_VERIFICATION_FAILED"),
    ensures
        post == pre,
{
}

/// A message is refused as unauthenticated exactly when its sender is not
/// registered, and, from a registered sender, refused as forged exactly when
/// its signature does not verify under the sender's key.
pub proof fn law_authentication(
    pre: PbftState,
    m: PbftMessage,
    post: PbftState,
    r: Result<String, &'static str>,
)
    requires
        PbftState::message_step(pre, m, post, r),
    ensures
        (r == Err::<String, &'static str>("AUTH_FAILED")) <==> !pre.registered(m.sender_id),
        pre.registered(m.sender_id) ==> ((r == Err::<String, &'static str>("CRYPTO_AUTH_FAILED"))
            <==> !pre.msg_signed(m)),
{
    reveal_strlit("AUTH_FAILED");
    reveal_strlit("CRYPTO_AUTH_FAILED");
    reveal_strlit("VIEW_MISMATCH");
    reveal_strlit("LEADER_VIOLATION");
    reveal_strlit("EQUIVOCATION_DETECTED");
    reveal_strlit("DUPLICATE_PROPOSAL");
    reveal_strlit("ORPHAN_PREPARE");
    reveal_strlit("CERTIFICATE_VERIFICATION_FAILED");
    reveal_strlit("ORPHAN_COMMIT");
    reveal_strlit("SAFETY_VIOLATION");
    reveal_strlit("VIEW_CHANGE_INVALID");
    reveal_strlit("CERTIFICATE_INVALID");
    reveal_strlit("MISSING_QUORUM_CERTIFICATE");
    reveal_strlit("NEW_VIEW_VERIFICATION_FAILED");
}

/// An accepted commit was for a pre-prepared proposal backed by a valid
/// prepared certificate; when it completes the commit quorum the digest is
/// committed.
pub proof fn law_commit_needs_prepared(
    pre: PbftState,
    m: PbftMessage,
    post: PbftState,
    r: Result<String, &'static str>,
)
    requires
        PbftState::message_step(pre, m, post, r),
        m.phase == Phase::Commit,
        r is Ok,
    ensures
        seq_has_key(pre.pre_prepared_proposals@, (m.view, m.seq, m.digest)),
        pre.has_valid_prepared(m.view, m.seq, m.digest),
        (r matches Ok(s) && s@ == "COMMITTED_OK"@) ==> post.committed_digest.lookup((m.view, m.seq))
            == Some(m.digest),
{
    reveal_strlit("COMMITTED_OK");
    reveal_strlit("VOTE_OK_COMMIT");
    assert("COMMITTED_OK"@ != "VOTE_OK_COMMIT"@) by {
        assert("COMMITTED_OK"@[0] != "VOTE_OK_COMMIT"@[0]);
    }
    if r matches Ok(s) && s@ == "COMMITTED_OK"@ {
        let k = (m.view, m.seq);
        let pre_t = pre.committed_digest@;
        let post_t = post.committed_digest@;
        if seq_has_key(pre_t, k) {
            let i = choose|i: int| 0 <= i < pre_t.len() && pre_t[i].0 == k && post_t == pre_t.update(i, (k, m.digest));
            lemma_lookup_entry(post_t, i);
        } else {
            lemma_lookup_entry(post_t, pre_t.len() as int);
        }
    }
}

/// A view-change vote that completes a quorum of votes for its view moves the
/// replica to exactly that view (whether or not the new view then
/// verifies); below the quorum the view stays where it was.
pub proof fn law_view_change_moves_to_voted_view(
    pre: PbftState,
    m: PbftMessage,
    post: PbftState,
    r: Result<String, &'static str>,
)
    requires
        PbftState::message_step(pre, m, post, r),
        m.phase == Phase::ViewChange,
        r != Err::<String, &'static str>("AUTH_FAILED"),
        r != Err::<String, &'static str>("CRYPTO_AUTH_FAILED"),
        r != Err::<String, &'static str>("VIEW_CHANGE_INVALID"),
        r != Err::<String, &'static str>("CERTIFICATE_INVALID"),
    ensures
        post.view_change_votes.lookup(m.view) is Some,
        post.view_change_votes.lookup(m.view).unwrap()@.len() >= pre.quorum_size ==> post.current_view
            == m.view,
        post.view_change_votes.lookup(m.view).unwrap()@.len() < pre.quorum_size ==> post.current_view
            == pre.current_view,
        m.view > pre.current_view,
{
}

/// A new-view certificate accepted by the replica is stored under the voted
/// view and names that view as its target.
pub proof fn law_new_view_certificate_for_voted_view(
    pre: PbftState,
    m: PbftMessage,
    post: PbftState,
    r: Result<String, &'static str>,
)
    requires
        PbftState::message_step(pre, m, post, r),
        m.phase == Phase::ViewChange,
        r matches Ok(s) && s@ == "VIEW_CHANGE_OK"@,
    ensures
        post.current_view == m.view,
        post.new_view_certificates.lookup(m.view) is Some,
        post.new_view_certificates.lookup(m.view).unwrap().target_view == m.view,
{
    reveal_strlit("VIEW_CHANGE_OK");
    reveal_strlit("VOTE_OK_VIEW_CHANGE");
    assert("VIEW_CHANGE_OK"@ != "VOTE_OK_VIEW_CHANGE"@) by {
        assert("VIEW_CHANGE_OK"@[1] != "VOTE_OK_VIEW_CHANGE"@[1]);
    }
}

/// An authenticated pre-prepare from the leader of the current view is
/// refused as equivocation exactly when an earlier pre-prepared proposal has
/// the same view and sequence number and another digest; proposals of other
/// views never cause it.
pub proof fn law_equivocation_is_same_view_and_sequence(
    pre: PbftState,
    m: PbftMessage,
    post: PbftState,
    r: Result<String, &'static str>,
)
    requires
        PbftState::message_step(pre, m, post, r),
        m.phase == Phase::PrePrepare,
        pre.registered(m.sender_id),
        pre.msg_signed(m),
        m.view == pre.current_view,
        m.sender_id == pre.leader(m.view),
    ensures
        (r == Err::<String, &'static str>("EQUIVOCATION_DETECTED")) <==> exists|i: int|
            0 <= i < pre.pre_prepared_proposals@.len() && {
                let k = (#[trigger] pre.pre_prepared_proposals@[i]).0;
                k.0 == m.view && k.1 == m.seq && k.2 != m.digest
            },
{
    reveal_strlit("EQUIVOCATION_DETECTED");
    reveal_strlit("DUPLICATE_PROPOSAL");
    assert("EQUIVOCATION_DETECTED"@ != "DUPLICATE_PROPOSAL"@) by {
        assert("EQUIVOCATION_DETECTED"@[0] != "DUPLICATE_PROPOSAL"@[0]);
    }
}

} // verus!
