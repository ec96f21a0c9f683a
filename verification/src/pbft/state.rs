//! The replica state machine: authentication of messages, the pre-prepare,
//! prepare and commit phases, and view changes.
use crate::codec::digest_eq;
use crate::pbft::certificate::{
    CommitCertificate, NewViewCertificate, PreparedCertificate, best_vote_digest,
    commit_cert_valid, max_vote_seq, new_view_parts_valid, prepared_cert_valid,
    prepared_parts, vote_best_digest, vote_max_seq,
};
use crate::pbft::message::{
    PbftMessage, Phase, ViewChangePayload, canonical_vote_bytes, payload_canonical_bytes,
    phase_byte, vote_bytes,
};
use crate::table::{NodeTable, Table, TableKey, lemma_lookup_is_entry, seq_has_key};
use crate::threshold_bls::{bls_valid, ids_fit, verify_bls_signature};
use crate::wal::WalRecord;
use std::collections::HashMap;
use vstd::prelude::*;

verus! {

broadcast use vstd::std_specs::hash::group_hash_axioms;

/// The table `post` is `pre` with `v` stored under `k`: in place of the
/// earlier entry for `k`, or appended as a new last entry.
pub open spec fn table_inserted<K, V>(pre: Seq<(K, V)>, post: Seq<(K, V)>, k: K, v: V) -> bool {
    if seq_has_key(pre, k) {
        exists|i: int| 0 <= i < pre.len() && pre[i].0 == k && post == pre.update(i, (k, v))
    } else {
        post == pre.push((k, v))
    }
}

/// `post` is `pre` with the vote `val` of `sender` recorded in the node table
/// stored under `key` (a new table when there was none).
pub open spec fn vote_recorded<K: TableKey + Copy, V: Copy>(
    pre: Table<K, NodeTable<V>>,
    post: Table<K, NodeTable<V>>,
    key: K,
    sender: u32,
    val: V,
) -> bool {
    &&& post.wf()
    &&& post.lookup(key) is Some
    &&& table_inserted(pre@, post@, key, post.lookup(key).unwrap())
    &&& post.lookup(key).unwrap().wf()
    &&& forall|id: u32| #[trigger]
        post.lookup(key).unwrap().lookup(id) == if id == sender {
            Some(val)
        } else {
            match pre.lookup(key) {
                Some(t) => t.lookup(id),
                None => None,
            }
        }
}

/// A table of partial signatures is sorted, and when it reaches the quorum
/// `q` its `q` lowest identifiers have successors in `u32` (so the node
/// positions used in interpolation exist).
pub open spec fn sig_table_ok(t: NodeTable<[u8; 48]>, q: nat) -> bool {
    &&& t.wf()
    &&& t@.len() >= q ==> ids_fit(t@, q)
}

/// The tables of a node-table-valued table are all sorted by node identifier.
pub open spec fn inner_tables_wf<K, V: Copy>(s: Seq<(K, NodeTable<V>)>) -> bool {
    forall|i: int| 0 <= i < s.len() ==> (#[trigger] s[i]).1.wf()
}

/// The state of one replica.
pub struct PbftState {
    pub total_nodes: usize,
    pub f: usize,
    pub current_view: u64,
    pub highest_seq: u64,
    pub prepared_certificates: Table<(u64, u64), PreparedCertificate>,
    pub commit_certificates: Table<(u64, u64), CommitCertificate>,
    pub new_view_certificates: Table<u64, NewViewCertificate>,
    pub committed_digest: Table<(u64, u64), [u8; 32]>,
    pub pre_prepared_proposals: Table<(u64, u64, [u8; 32]), ()>,
    pub prepare_votes: Table<(u64, u64, [u8; 32]), NodeTable<[u8; 48]>>,
    pub commit_votes: Table<(u64, u64, [u8; 32]), NodeTable<[u8; 48]>>,
    pub view_change_votes: Table<u64, NodeTable<(u64, [u8; 32], [u8; 48])>>,
    pub quorum_size: usize,
    /// The registered nodes are those with an identifier below this bound.
    pub registered_nodes: u32,
    pub public_keys: HashMap<u32, [u8; 96]>,
    pub master_public_key: [u8; 96],
}

/// The first position, from `i` on, of a prepared certificate with sequence
/// number `s`, digest `d` and a valid threshold signature.
pub open spec fn first_candidate_from(
    certs: Seq<((u64, u64), PreparedCertificate)>,
    s: u64,
    d: [u8; 32],
    q: nat,
    mpk: Seq<u8>,
    i: int,
) -> Option<int>
    decreases certs.len() - i,
{
    if i < 0 || i >= certs.len() {
        None
    } else if certs[i].1.seq == s && certs[i].1.digest == d && prepared_cert_valid(certs[i].1, q, mpk) {
        Some(i)
    } else {
        first_candidate_from(certs, s, d, q, mpk, i + 1)
    }
}

impl PbftState {
    /// The invariant of a replica's state.
    pub open spec fn wf(&self) -> bool {
        &&& self.total_nodes == 3 * self.f + 1
        &&& self.quorum_size == 2 * self.f + 1
        &&& forall|id: u32| id < self.registered_nodes ==> self.public_keys@.contains_key(id)
        &&& self.prepared_certificates.wf()
        &&& forall|i: int|
            0 <= i < self.prepared_certificates@.len() ==> sig_table_ok(
                (#[trigger] self.prepared_certificates@[i]).1.signatures,
                self.quorum_size as nat,
            )
        &&& self.commit_certificates.wf()
        &&& self.new_view_certificates.wf()
        &&& self.committed_digest.wf()
        &&& self.pre_prepared_proposals.wf()
        &&& self.prepare_votes.wf()
        &&& inner_tables_wf(self.prepare_votes@)
        &&& self.commit_votes.wf()
        &&& inner_tables_wf(self.commit_votes@)
        &&& self.view_change_votes.wf()
        &&& inner_tables_wf(self.view_change_votes@)
        &&& self.committed_backed()
    }

    /// Every committed digest is backed by a valid commit certificate for the
    /// same view and sequence number and the same digest.
    pub open spec fn committed_backed(&self) -> bool {
        forall|k: (u64, u64)|
            #![trigger self.committed_digest.lookup(k)]
            self.committed_digest.lookup(k) is Some ==> {
                &&& self.commit_certificates.lookup(k) is Some
                &&& self.commit_certificates.lookup(k).unwrap().digest
                    == self.committed_digest.lookup(k).unwrap()
                &&& commit_cert_valid(
                    self.commit_certificates.lookup(k).unwrap(),
                    self.quorum_size as nat,
                    self.master_public_key@,
                )
            }
    }

    /// No two pre-prepared proposals share a view and sequence number.
    pub open spec fn proposals_unique(&self) -> bool {
        forall|i: int, j: int|
            0 <= i < self.pre_prepared_proposals@.len() && 0 <= j
                < self.pre_prepared_proposals@.len() && (#[trigger] self.pre_prepared_proposals@[i]).0.0
                == (#[trigger] self.pre_prepared_proposals@[j]).0.0
                && self.pre_prepared_proposals@[i].0.1 == self.pre_prepared_proposals@[j].0.1 ==> i
                == j
    }

    /// Whether a node identifier is registered.
    pub open spec fn registered(&self, id: u32) -> bool {
        id < self.registered_nodes
    }

    /// The leader of a view: the view number modulo the number of nodes.
    pub open spec fn leader(&self, view: u64) -> u32 {
        (view as int % self.total_nodes as int) as u32
    }

    /// Whether the message is signed by its sender's registered key.
    pub open spec fn msg_signed(&self, m: PbftMessage) -> bool {
        bls_valid(
            vote_bytes(phase_byte(m.phase), m.view, m.seq, m.digest@),
            m.signature@,
            self.public_keys@[m.sender_id]@,
        )
    }

    /// Whether some prepared certificate for view `v`, sequence number `s` and
    /// digest `d` has a valid threshold signature.
    pub open spec fn has_valid_prepared(&self, v: u64, s: u64, d: [u8; 32]) -> bool {
        exists|i: int|
            0 <= i < self.prepared_certificates@.len() && {
                let c = (#[trigger] self.prepared_certificates@[i]).1;
                &&& c.view == v
                &&& c.seq == s
                &&& c.digest == d
                &&& prepared_cert_valid(c, self.quorum_size as nat, self.master_public_key@)
            }
    }

    /// Whether a pre-prepared proposal for `v` and `s` carries another digest than `d`.
    pub open spec fn conflicting_proposal(&self, v: u64, s: u64, d: [u8; 32]) -> bool {
        exists|i: int|
            0 <= i < self.pre_prepared_proposals@.len() && {
                let k = (#[trigger] self.pre_prepared_proposals@[i]).0;
                k.0 == v && k.1 == s && k.2 != d
            }
    }

    /// The effect of a pre-prepare message that passed authentication.
    pub open spec fn pre_prepare_step(
        pre: Self,
        m: PbftMessage,
        post: Self,
        r: Result<String, &'static str>,
    ) -> bool {
        let key = (m.view, m.seq, m.digest);
        if m.view != pre.current_view {
            post == pre && r == Err::<String, &'static str>("VIEW_MISMATCH")
        } else if m.sender_id != pre.leader(m.view) {
            post == pre && r == Err::<String, &'static str>("LEADER_VIOLATION")
        } else if pre.conflicting_proposal(m.view, m.seq, m.digest) {
            post == pre && r == Err::<String, &'static str>("EQUIVOCATION_DETECTED")
        } else if seq_has_key(pre.pre_prepared_proposals@, key) {
            post == pre && r == Err::<String, &'static str>("DUPLICATE_PROPOSAL")
        } else {
            &&& r matches Ok(s) && s@ == "INBOUND_OK_PREPREPARE"@
            &&& post == PbftState {
                pre_prepared_proposals: post.pre_prepared_proposals,
                highest_seq: post.highest_seq,
                ..pre
            }
            &&& post.pre_prepared_proposals.wf()
            &&& post.pre_prepared_proposals@ == pre.pre_prepared_proposals@.push((key, ()))
            &&& post.highest_seq == if m.seq > pre.highest_seq {
                m.seq
            } else {
                pre.highest_seq
            }
        }
    }

    /// The effect of a prepare message that passed authentication.
    pub open spec fn prepare_step(
        pre: Self,
        m: PbftMessage,
        post: Self,
        r: Result<String, &'static str>,
    ) -> bool {
        let key = (m.view, m.seq, m.digest);
        if m.view != pre.current_view {
            post == pre && r == Err::<String, &'static str>("VIEW_MISMATCH")
        } else if !seq_has_key(pre.pre_prepared_proposals@, key) {
            post == pre && r == Err::<String, &'static str>("ORPHAN_PREPARE")
        } else {
            let sigs = post.prepare_votes.lookup(key).unwrap();
            &&& vote_recorded(pre.prepare_votes, post.prepare_votes, key, m.sender_id, m.signature)
            &&& if sigs@.len() >= pre.quorum_size {
                if !prepared_parts_ok(pre, m, sigs@) {
                    &&& post == PbftState { prepare_votes: post.prepare_votes, ..pre }
                    &&& r == Err::<String, &'static str>("CERTIFICATE_VERIFICATION_FAILED")
                } else {
                    let cert = post.prepared_certificates.lookup((m.view, m.seq)).unwrap();
                    &&& post == PbftState {
                        prepare_votes: post.prepare_votes,
                        prepared_certificates: post.prepared_certificates,
                        ..pre
                    }
                    &&& post.prepared_certificates.wf()
                    &&& post.prepared_certificates.lookup((m.view, m.seq)) is Some
                    &&& table_inserted(
                        pre.prepared_certificates@,
                        post.prepared_certificates@,
                        (m.view, m.seq),
                        cert,
                    )
                    &&& prepared_parts(cert) == (m.view, m.seq, m.digest, sigs@)
                    &&& r matches Ok(s) && s@ == "CERTIFICATE_OK_PREPARED"@
                }
            } else {
                &&& post == PbftState { prepare_votes: post.prepare_votes, ..pre }
                &&& r matches Ok(s) && s@ == "VOTE_OK_PREPARE"@
            }
        }
    }

    /// The effect of a commit message that passed authentication.
    pub open spec fn commit_step(
        pre: Self,
        m: PbftMessage,
        post: Self,
        r: Result<String, &'static str>,
    ) -> bool {
        let key = (m.view, m.seq, m.digest);
        if m.view != pre.current_view {
            post == pre && r == Err::<String, &'static str>("VIEW_MISMATCH")
        } else if !seq_has_key(pre.pre_prepared_proposals@, key) {
            post == pre && r == Err::<String, &'static str>("ORPHAN_COMMIT")
        } else if !pre.has_valid_prepared(m.view, m.seq, m.digest) {
            post == pre && r == Err::<String, &'static str>("SAFETY_VIOLATION")
        } else if pre.committed_digest.lookup((m.view, m.seq)) matches Some(e) && e != m.digest {
            post == pre && r == Err::<String, &'static str>("EQUIVOCATION_DETECTED")
        } else {
            let sigs = post.commit_votes.lookup(key).unwrap();
            &&& vote_recorded(pre.commit_votes, post.commit_votes, key, m.sender_id, m.signature)
            &&& if sigs@.len() >= pre.quorum_size {
                if !commit_parts_ok(pre, m, sigs@) {
                    &&& post == PbftState { commit_votes: post.commit_votes, ..pre }
                    &&& r == Err::<String, &'static str>("CERTIFICATE_VERIFICATION_FAILED")
                } else {
                    let cert = post.commit_certificates.lookup((m.view, m.seq)).unwrap();
                    &&& post == PbftState {
                        commit_votes: post.commit_votes,
                        commit_certificates: post.commit_certificates,
                        committed_digest: post.committed_digest,
                        ..pre
                    }
                    &&& post.commit_certificates.wf()
                    &&& post.commit_certificates.lookup((m.view, m.seq)) is Some
                    &&& table_inserted(
                        pre.commit_certificates@,
                        post.commit_certificates@,
                        (m.view, m.seq),
                        cert,
                    )
                    &&& cert.view == m.view && cert.seq == m.seq && cert.digest == m.digest
                    &&& cert.signatures@ == sigs@
                    &&& post.committed_digest.wf()
                    &&& table_inserted(
                        pre.committed_digest@,
                        post.committed_digest@,
                        (m.view, m.seq),
                        m.digest,
                    )
                    &&& r matches Ok(s) && s@ == "COMMITTED_OK"@
                }
            } else {
                &&& post == PbftState { commit_votes: post.commit_votes, ..pre }
                &&& r matches Ok(s) && s@ == "VOTE_OK_COMMIT"@
            }
        }
    }

    /// The effect of a view-change message that passed authentication.
    pub open spec fn view_change_step(
        pre: Self,
        m: PbftMessage,
        post: Self,
        r: Result<String, &'static str>,
    ) -> bool {
        if m.view <= pre.current_view {
            post == pre && r == Err::<String, &'static str>("VIEW_CHANGE_INVALID")
        } else if m.seq > 0 && !pre.has_valid_prepared(m.view, m.seq, m.digest) {
            post == pre && r == Err::<String, &'static str>("CERTIFICATE_INVALID")
        } else {
            let votes = post.view_change_votes.lookup(m.view).unwrap();
            let mx = max_vote_seq(votes@);
            let best = best_vote_digest(votes@);
            let found = first_candidate_from(
                pre.prepared_certificates@,
                mx,
                best,
                pre.quorum_size as nat,
                pre.master_public_key@,
                0,
            );
            let selected = if mx > 0 {
                Some(prepared_parts(pre.prepared_certificates@[found.unwrap()].1))
            } else {
                None
            };
            let hs = match selected {
                Some(c) => if c.1 > pre.highest_seq {
                    c.1
                } else {
                    pre.highest_seq
                },
                None => pre.highest_seq,
            };
            &&& vote_recorded(
                pre.view_change_votes,
                post.view_change_votes,
                m.view,
                m.sender_id,
                (m.seq, m.digest, m.signature),
            )
            &&& if votes@.len() >= pre.quorum_size {
                if mx > 0 && found is None {
                    &&& post == PbftState {
                        view_change_votes: post.view_change_votes,
                        current_view: m.view,
                        ..pre
                    }
                    &&& r == Err::<String, &'static str>("MISSING_QUORUM_CERTIFICATE")
                } else if !new_view_parts_valid(
                    m.view,
                    votes@,
                    selected,
                    pre.quorum_size as nat,
                    pre.master_public_key@,
                    pre.public_keys@,
                ) {
                    &&& post == PbftState {
                        view_change_votes: post.view_change_votes,
                        current_view: m.view,
                        highest_seq: hs,
                        ..pre
                    }
                    &&& r == Err::<String, &'static str>("NEW_VIEW_VERIFICATION_FAILED")
                } else {
                    let nv = post.new_view_certificates.lookup(m.view).unwrap();
                    &&& post == PbftState {
                        view_change_votes: post.view_change_votes,
                        current_view: m.view,
                        highest_seq: hs,
                        new_view_certificates: post.new_view_certificates,
                        ..pre
                    }
                    &&& post.new_view_certificates.wf()
                    &&& post.new_view_certificates.lookup(m.view) is Some
                    &&& table_inserted(
                        pre.new_view_certificates@,
                        post.new_view_certificates@,
                        m.view,
                        nv,
                    )
                    &&& nv.target_view == m.view
                    &&& nv.view_change_votes@ == votes@
                    &&& match nv.selected_prepared_certificate {
                        Some(c) => selected == Some(prepared_parts(c)),
                        None => selected is None,
                    }
                    &&& r matches Ok(s) && s@ == "VIEW_CHANGE_OK"@
                }
            } else {
                &&& post == PbftState { view_change_votes: post.view_change_votes, ..pre }
                &&& r matches Ok(s) && s@ == "VOTE_OK_VIEW_CHANGE"@
            }
        }
    }

    /// The effect of a message on a replica: authentication, signature check,
    /// then the step of the message's phase.
    pub open spec fn message_step(
        pre: Self,
        m: PbftMessage,
        post: Self,
        r: Result<String, &'static str>,
    ) -> bool {
        if !pre.registered(m.sender_id) {
            post == pre && r == Err::<String, &'static str>("AUTH_FAILED")
        } else if !pre.msg_signed(m) {
            post == pre && r == Err::<String, &'static str>("CRYPTO_AUTH_FAILED")
        } else {
            match m.phase {
                Phase::PrePrepare => Self::pre_prepare_step(pre, m, post, r),
                Phase::Prepare => Self::prepare_step(pre, m, post, r),
                Phase::Commit => Self::commit_step(pre, m, post, r),
                Phase::ViewChange => Self::view_change_step(pre, m, post, r),
            }
        }
    }
}

/// The prepared certificate formed by `sigs` for the message's view, sequence
/// number and digest has a valid threshold signature (its quorum of lowest
/// identifiers must all have node positions, that is, lie below `u32::MAX`).
pub open spec fn prepared_parts_ok(pre: PbftState, m: PbftMessage, sigs: Seq<(u32, [u8; 48])>) -> bool {
    ids_fit(sigs, pre.quorum_size as nat) && crate::threshold_bls::threshold_valid(
        vote_bytes(1, m.view, m.seq, m.digest@),
        sigs,
        pre.master_public_key@,
        pre.quorum_size as nat,
    )
}

/// The commit certificate formed by `sigs` for the message's view, sequence
/// number and digest has a valid threshold signature (its quorum of lowest
/// identifiers must all have node positions, that is, lie below `u32::MAX`).
pub open spec fn commit_parts_ok(pre: PbftState, m: PbftMessage, sigs: Seq<(u32, [u8; 48])>) -> bool {
    ids_fit(sigs, pre.quorum_size as nat) && crate::threshold_bls::threshold_valid(
        vote_bytes(2, m.view, m.seq, m.digest@),
        sigs,
        pre.master_public_key@,
        pre.quorum_size as nat,
    )
}

impl PbftState {
    /// A fresh replica: no views, votes or certificates, the given keys.
    pub open spec fn fresh(&self, total_nodes: usize, keys: Map<u32, [u8; 96]>, mpk: [u8; 96]) -> bool {
        &&& self.total_nodes == total_nodes
        &&& self.f == (total_nodes - 1) / 3
        &&& self.quorum_size == 2 * self.f + 1
        &&& self.current_view == 0
        &&& self.highest_seq == 0
        &&& self.prepared_certificates@.len() == 0
        &&& self.commit_certificates@.len() == 0
        &&& self.new_view_certificates@.len() == 0
        &&& self.committed_digest@.len() == 0
        &&& self.pre_prepared_proposals@.len() == 0
        &&& self.prepare_votes@.len() == 0
        &&& self.commit_votes@.len() == 0
        &&& self.view_change_votes@.len() == 0
        &&& self.registered_nodes == total_nodes as u32
        &&& self.public_keys@ == keys
        &&& self.master_public_key == mpk
    }

    /// Sets up a replica for `total_nodes` nodes: the number of nodes must be
    /// 3f + 1, and every node identifier below it must have a public key.
    pub fn new(
        total_nodes: usize,
        initial_public_keys: HashMap<u32, [u8; 96]>,
        master_public_key: [u8; 96],
    ) -> (r: Result<Self, &'static str>)
        requires
            total_nodes >= 1,
        ensures
            total_nodes != 3 * ((total_nodes - 1) / 3) + 1 ==> r == Err::<Self, &'static str>(
                "TOPOLOGY_VIOLATION",
            ),
            total_nodes == 3 * ((total_nodes - 1) / 3) + 1 && (exists|id: u32|
                id < total_nodes as u32 && !initial_public_keys@.contains_key(id)) ==> r == Err::<
                Self,
                &'static str,
            >("REGISTRY_VIOLATION"),
            total_nodes == 3 * ((total_nodes - 1) / 3) + 1 && (forall|id: u32|
                id < total_nodes as u32 ==> initial_public_keys@.contains_key(id)) ==> (r matches Ok(
                s) && s.wf() && s.fresh(total_nodes, initial_public_keys@, master_public_key)),
    {
        let f = (total_nodes - 1) / 3;
        if total_nodes != 3 * f + 1 {
            return Err("TOPOLOGY_VIOLATION");
        }
        let quorum_size = 2 * f + 1;
        let limit = total_nodes as u32;
        let mut id: u32 = 0;
        while id < limit
            invariant
                id <= limit,
                limit == total_nodes as u32,
                f == (total_nodes - 1) / 3,
                total_nodes == 3 * f + 1,
                forall|j: u32| j < id ==> initial_public_keys@.contains_key(j),
            decreases limit - id,
        {
            if !initial_public_keys.contains_key(&id) {
                return Err("REGISTRY_VIOLATION");
            }
            id = id + 1;
        }
        let s = PbftState {
            total_nodes,
            f,
            current_view: 0,
            highest_seq: 0,
            prepared_certificates: Table::new(),
            commit_certificates: Table::new(),
            new_view_certificates: Table::new(),
            committed_digest: Table::new(),
            pre_prepared_proposals: Table::new(),
            prepare_votes: Table::new(),
            commit_votes: Table::new(),
            view_change_votes: Table::new(),
            quorum_size,
            registered_nodes: limit,
            public_keys: initial_public_keys,
            master_public_key,
        };
        Ok(s)
    }

    /// The leader of a view: the view number modulo the number of nodes.
    pub fn get_expected_leader(&self, view: u64) -> (r: u32)
        requires
            self.wf(),
        ensures
            r == self.leader(view),
    {
        (view % (self.total_nodes as u64)) as u32
    }

    /// Whether a node identifier is registered.
    pub fn is_registered(&self, id: u32) -> (r: bool)
        ensures
            r == self.registered(id),
    {
        id < self.registered_nodes
    }
}


/// Whether the `q` lowest identifiers of a table of partial signatures have
/// successors in `u32`.
fn signatures_fit(t: &NodeTable<[u8; 48]>, q: usize) -> (r: bool)
    ensures
        r == ids_fit(t@, q as nat),
{
    let mut i: usize = 0;
    while i < q && i < t.len()
        invariant
            0 <= i <= q,
            i <= t@.len(),
            forall|j: int| 0 <= j < i ==> (#[trigger] t@[j]).0 < u32::MAX,
        decreases q - i,
    {
        let (id, _) = t.entry(i);
        if id == u32::MAX {
            assert(t@[i as int].0 == u32::MAX);
            return false;
        }
        i = i + 1;
    }
    true
}

/// Records the vote `val` of `sender` in the node table stored under `key`,
/// and returns that table.
pub fn record_vote<K: TableKey + Copy, V: Copy>(
    votes: &mut Table<K, NodeTable<V>>,
    key: K,
    sender: u32,
    val: V,
) -> (r: NodeTable<V>)
    requires
        old(votes).wf(),
        inner_tables_wf(old(votes)@),
    ensures
        vote_recorded(*old(votes), *final(votes), key, sender, val),
        inner_tables_wf(final(votes)@),
        r@ == final(votes).lookup(key).unwrap()@,
        r.wf(),
{
    let ghost pre = *votes;
    let mut t = match votes.get(&key) {
        Some(existing) => {
            proof {
                lemma_lookup_is_entry(votes@, key);
            }
            existing.copy()
        },
        None => NodeTable::new(),
    };
    assert(t.wf());
    t.insert(sender, val);
    let r = t.copy();
    votes.insert(key, t);
    proof {
        let post = *votes;
        assert(post.lookup(key) == Some(t));
        if seq_has_key(pre@, key) {
            let i = choose|i: int| 0 <= i < pre@.len() && (#[trigger] pre@[i]).0 == key;
            assert(post@ == pre@.update(i, (key, t)));
        }
        assert(table_inserted(pre@, post@, key, t));
        assert forall|i: int| 0 <= i < post@.len() implies (#[trigger] post@[i]).1.wf() by {
            if seq_has_key(pre@, key) {
                let j = choose|j: int| 0 <= j < pre@.len() && pre@[j].0 == key && post@ == pre@.update(j, (key, t));
                if i != j {
                    assert(post@[i] == pre@[i]);
                }
            } else {
                if i < pre@.len() {
                    assert(post@[i] == pre@[i]);
                }
            }
        }
        assert forall|id: u32| #[trigger] t.lookup(id) == if id == sender {
            Some(val)
        } else {
            match pre.lookup(key) {
                Some(o) => o.lookup(id),
                None => None,
            }
        } by {}
    }
    r
}

impl PbftState {
    /// Whether some prepared certificate for `v`, `s` and `d` has a valid
    /// threshold signature.
    fn find_valid_prepared(&self, v: u64, s: u64, d: &[u8; 32]) -> (r: bool)
        requires
            self.wf(),
        ensures
            r == self.has_valid_prepared(v, s, *d),
    {
        let mut i: usize = 0;
        while i < self.prepared_certificates.len()
            invariant
                self.wf(),
                0 <= i <= self.prepared_certificates@.len(),
                forall|j: int|
                    0 <= j < i ==> !{
                        let c = (#[trigger] self.prepared_certificates@[j]).1;
                        &&& c.view == v
                        &&& c.seq == s
                        &&& c.digest == *d
                        &&& prepared_cert_valid(c, self.quorum_size as nat, self.master_public_key@)
                    },
            decreases self.prepared_certificates@.len() - i,
        {
            let cert = self.prepared_certificates.value_at(i);
            proof {
                assert(sig_table_ok(self.prepared_certificates@[i as int].1.signatures, self.quorum_size as nat));
            }
            if cert.view == v && cert.seq == s && digest_eq(&cert.digest, d) && cert.verify(
                self.quorum_size,
                &self.master_public_key,
            ) {
                return true;
            }
            i = i + 1;
        }
        false
    }

    /// Whether a pre-prepared proposal for `v` and `s` carries another digest than `d`.
    fn find_conflicting_proposal(&self, v: u64, s: u64, d: &[u8; 32]) -> (r: bool)
        ensures
            r == self.conflicting_proposal(v, s, *d),
    {
        let mut i: usize = 0;
        while i < self.pre_prepared_proposals.len()
            invariant
                0 <= i <= self.pre_prepared_proposals@.len(),
                forall|j: int|
                    0 <= j < i ==> !{
                        let k = (#[trigger] self.pre_prepared_proposals@[j]).0;
                        k.0 == v && k.1 == s && k.2 != *d
                    },
            decreases self.pre_prepared_proposals@.len() - i,
        {
            let k = self.pre_prepared_proposals.key_at(i);
            if k.0 == v && k.1 == s && !digest_eq(&k.2, d) {
                return true;
            }
            i = i + 1;
        }
        false
    }

    /// The first prepared certificate (in table order) with sequence number
    /// `s`, digest `d` and a valid threshold signature.
    fn find_candidate(&self, s: u64, d: &[u8; 32]) -> (r: Option<usize>)
        requires
            self.wf(),
        ensures
            match r {
                Some(i) => i < self.prepared_certificates@.len() && first_candidate_from(
                    self.prepared_certificates@,
                    s,
                    *d,
                    self.quorum_size as nat,
                    self.master_public_key@,
                    0,
                ) == Some(i as int),
                None => first_candidate_from(
                    self.prepared_certificates@,
                    s,
                    *d,
                    self.quorum_size as nat,
                    self.master_public_key@,
                    0,
                ) is None,
            },
    {
        let ghost certs = self.prepared_certificates@;
        let ghost q = self.quorum_size as nat;
        let ghost mpk = self.master_public_key@;
        let mut i: usize = 0;
        while i < self.prepared_certificates.len()
            invariant
                self.wf(),
                certs == self.prepared_certificates@,
                q == self.quorum_size as nat,
                mpk == self.master_public_key@,
                0 <= i <= certs.len(),
                first_candidate_from(certs, s, *d, q, mpk, 0) == first_candidate_from(
                    certs,
                    s,
                    *d,
                    q,
                    mpk,
                    i as int,
                ),
            decreases certs.len() - i,
        {
            let cert = self.prepared_certificates.value_at(i);
            proof {
                assert(sig_table_ok(certs[i as int].1.signatures, q));
            }
            if cert.seq == s && digest_eq(&cert.digest, d) && cert.verify(
                self.quorum_size,
                &self.master_public_key,
            ) {
                return Some(i);
            }
            i = i + 1;
        }
        None
    }
}



impl PbftState {
    fn handle_pre_prepare(&mut self, msg: &PbftMessage) -> (r: Result<String, &'static str>)
        requires
            old(self).wf(),
        ensures
            final(self).wf(),
            Self::pre_prepare_step(*old(self), *msg, *final(self), r),
    {
        if msg.view != self.current_view {
            return Err("VIEW_MISMATCH");
        }
        let expected_leader = self.get_expected_leader(msg.view);
        if msg.sender_id != expected_leader {
            return Err("LEADER_VIOLATION");
        }
        if self.find_conflicting_proposal(msg.view, msg.seq, &msg.digest) {
            return Err("EQUIVOCATION_DETECTED");
        }
        let proposal_key = (msg.view, msg.seq, msg.digest);
        if self.pre_prepared_proposals.contains_key(&proposal_key) {
            return Err("DUPLICATE_PROPOSAL");
        }
        self.pre_prepared_proposals.insert(proposal_key, ());
        if msg.seq > self.highest_seq {
            self.highest_seq = msg.seq;
        }
        Ok("INBOUND_OK_PREPREPARE".to_owned())
    }

    fn handle_prepare(&mut self, msg: &PbftMessage) -> (r: Result<String, &'static str>)
        requires
            old(self).wf(),
            old(self).registered(msg.sender_id),
        ensures
            final(self).wf(),
            Self::prepare_step(*old(self), *msg, *final(self), r),
    {
        if msg.view != self.current_view {
            return Err("VIEW_MISMATCH");
        }
        let proposal_key = (msg.view, msg.seq, msg.digest);
        if !self.pre_prepared_proposals.contains_key(&proposal_key) {
            return Err("ORPHAN_PREPARE");
        }
        let ghost pre_votes = self.prepare_votes;
        let sigs = record_vote(&mut self.prepare_votes, proposal_key, msg.sender_id, msg.signature);
        if sigs.len() >= self.quorum_size {
            let cert = PreparedCertificate {
                view: msg.view,
                seq: msg.seq,
                digest: msg.digest,
                signatures: sigs,
            };
            if !signatures_fit(&cert.signatures, self.quorum_size) || !cert.verify(
                self.quorum_size,
                &self.master_public_key,
            ) {
                return Err("CERTIFICATE_VERIFICATION_FAILED");
            }
            let ghost pre_certs = self.prepared_certificates;
            self.prepared_certificates.insert((msg.view, msg.seq), cert);
            proof {
                let post_certs = self.prepared_certificates;
                if seq_has_key(pre_certs@, (msg.view, msg.seq)) {
                    let i = choose|i: int| 0 <= i < pre_certs@.len() && (#[trigger] pre_certs@[i]).0 == (msg.view, msg.seq);
                    assert(post_certs@ == pre_certs@.update(i, ((msg.view, msg.seq), cert)));
                }
                assert forall|i: int| 0 <= i < post_certs@.len() implies sig_table_ok(
                    (#[trigger] post_certs@[i]).1.signatures,
                    self.quorum_size as nat,
                ) by {
                    if i < pre_certs@.len() && post_certs@[i] == pre_certs@[i] {
                    } else {
                        assert(post_certs@[i].1 == cert);
                    }
                }
            }
            Ok("CERTIFICATE_OK_PREPARED".to_owned())
        } else {
            Ok("VOTE_OK_PREPARE".to_owned())
        }
    }
}

impl PbftState {
    fn handle_commit(&mut self, msg: &PbftMessage) -> (r: Result<String, &'static str>)
        requires
            old(self).wf(),
            old(self).registered(msg.sender_id),
        ensures
            final(self).wf(),
            Self::commit_step(*old(self), *msg, *final(self), r),
            forall|k: (u64, u64)|
                #![trigger final(self).committed_digest.lookup(k)]
                old(self).committed_digest.lookup(k) is Some ==> final(self).committed_digest.lookup(k)
                    == old(self).committed_digest.lookup(k),
    {
        if msg.view != self.current_view {
            return Err("VIEW_MISMATCH");
        }
        let proposal_key = (msg.view, msg.seq, msg.digest);
        if !self.pre_prepared_proposals.contains_key(&proposal_key) {
            return Err("ORPHAN_COMMIT");
        }
        if !self.find_valid_prepared(msg.view, msg.seq, &msg.digest) {
            return Err("SAFETY_VIOLATION");
        }
        match self.committed_digest.get(&(msg.view, msg.seq)) {
            Some(existing_digest) => {
                if !digest_eq(existing_digest, &msg.digest) {
                    return Err("EQUIVOCATION_DETECTED");
                }
            },
            None => {},
        }
        let ghost pre = *self;
        let sigs = record_vote(&mut self.commit_votes, proposal_key, msg.sender_id, msg.signature);
        if sigs.len() >= self.quorum_size {
            let commit_cert = CommitCertificate {
                view: msg.view,
                seq: msg.seq,
                digest: msg.digest,
                signatures: sigs,
            };
            if !signatures_fit(&commit_cert.signatures, self.quorum_size) || !commit_cert.verify(
                self.quorum_size,
                &self.master_public_key,
            ) {
                return Err("CERTIFICATE_VERIFICATION_FAILED");
            }
            let ghost cert_copy = commit_cert;
            self.commit_certificates.insert((msg.view, msg.seq), commit_cert);
            self.committed_digest.insert((msg.view, msg.seq), msg.digest);
            proof {
                let k0 = (msg.view, msg.seq);
                if seq_has_key(pre.commit_certificates@, k0) {
                    let i = choose|i: int| 0 <= i < pre.commit_certificates@.len() && (#[trigger] pre.commit_certificates@[i]).0 == k0;
                    assert(self.commit_certificates@ == pre.commit_certificates@.update(i, (k0, cert_copy)));
                }
                if seq_has_key(pre.committed_digest@, k0) {
                    let i = choose|i: int| 0 <= i < pre.committed_digest@.len() && (#[trigger] pre.committed_digest@[i]).0 == k0;
                    assert(self.committed_digest@ == pre.committed_digest@.update(i, (k0, msg.digest)));
                }
                assert forall|k: (u64, u64)| #![trigger self.committed_digest.lookup(k)]
                    self.committed_digest.lookup(k) is Some implies {
                        &&& self.commit_certificates.lookup(k) is Some
                        &&& self.commit_certificates.lookup(k).unwrap().digest
                            == self.committed_digest.lookup(k).unwrap()
                        &&& commit_cert_valid(
                            self.commit_certificates.lookup(k).unwrap(),
                            self.quorum_size as nat,
                            self.master_public_key@,
                        )
                    } by {
                    if k != k0 {
                        assert(pre.committed_digest.lookup(k) is Some);
                    }
                }
            }
            Ok("COMMITTED_OK".to_owned())
        } else {
            Ok("VOTE_OK_COMMIT".to_owned())
        }
    }
}

impl PbftState {
    fn handle_view_change(&mut self, msg: &PbftMessage) -> (r: Result<String, &'static str>)
        requires
            old(self).wf(),
        ensures
            final(self).wf(),
            Self::view_change_step(*old(self), *msg, *final(self), r),
    {
        if msg.view <= self.current_view {
            return Err("VIEW_CHANGE_INVALID");
        }
        if msg.seq > 0 {
            if !self.find_valid_prepared(msg.view, msg.seq, &msg.digest) {
                return Err("CERTIFICATE_INVALID");
            }
        }
        let ghost pre = *self;
        let supporters = record_vote(
            &mut self.view_change_votes,
            msg.view,
            msg.sender_id,
            (msg.seq, msg.digest, msg.signature),
        );
        if supporters.len() >= self.quorum_size {
            self.current_view = msg.view;
            let max_quorum_seq = vote_max_seq(&supporters);
            let best_digest = vote_best_digest(&supporters, max_quorum_seq);
            assert(self.wf());
            let bound_cert = if max_quorum_seq > 0 {
                match self.find_candidate(max_quorum_seq, &best_digest) {
                    Some(i) => {
                        let c = self.prepared_certificates.value_at(i).duplicate();
                        proof {
                            assert(sig_table_ok(self.prepared_certificates@[i as int].1.signatures, self.quorum_size as nat));
                        }
                        Some(c)
                    },
                    None => {
                        return Err("MISSING_QUORUM_CERTIFICATE");
                    },
                }
            } else {
                None
            };
            match &bound_cert {
                Some(c) => {
                    if c.seq > self.highest_seq {
                        self.highest_seq = c.seq;
                    }
                },
                None => {},
            }
            let new_view_cert = NewViewCertificate {
                target_view: msg.view,
                view_change_votes: supporters,
                selected_prepared_certificate: bound_cert,
            };
            if !new_view_cert.verify(self.quorum_size, &self.master_public_key, &self.public_keys) {
                return Err("NEW_VIEW_VERIFICATION_FAILED");
            }
            let ghost nv_copy = new_view_cert;
            let ghost pre_nv = self.new_view_certificates;
            self.new_view_certificates.insert(msg.view, new_view_cert);
            proof {
                if seq_has_key(pre_nv@, msg.view) {
                    let i = choose|i: int| 0 <= i < pre_nv@.len() && (#[trigger] pre_nv@[i]).0 == msg.view;
                    assert(self.new_view_certificates@ == pre_nv@.update(i, (msg.view, nv_copy)));
                }
            }
            Ok("VIEW_CHANGE_OK".to_owned())
        } else {
            Ok("VOTE_OK_VIEW_CHANGE".to_owned())
        }
    }

    /// Handles one consensus message: checks that the sender is registered
    /// and that the signature over (phase, view, sequence number, digest)
    /// verifies under the sender's key, then applies the step of the message's
    /// phase.  On success the caller persists the message before acting on
    /// the response.
    pub fn handle_message(&mut self, msg: &PbftMessage) -> (r: Result<String, &'static str>)
        requires
            old(self).wf(),
        ensures
            final(self).wf(),
            Self::message_step(*old(self), *msg, *final(self), r),
            final(self).current_view >= old(self).current_view,
            final(self).highest_seq >= old(self).highest_seq,
            forall|k: (u64, u64)|
                #![trigger final(self).committed_digest.lookup(k)]
                old(self).committed_digest.lookup(k) is Some ==> final(self).committed_digest.lookup(k)
                    == old(self).committed_digest.lookup(k),
            old(self).proposals_unique() ==> final(self).proposals_unique(),
    {
        if !self.is_registered(msg.sender_id) {
            return Err("AUTH_FAILED");
        }
        let pk = *self.public_keys.get(&msg.sender_id).unwrap();
        let canonical_msg = canonical_vote_bytes(msg.phase.to_byte(), msg.view, msg.seq, &msg.digest);
        if !verify_bls_signature(canonical_msg.as_slice(), &msg.signature, &pk) {
            return Err("CRYPTO_AUTH_FAILED");
        }
        let ghost pre = *self;
        let r = match msg.phase {
            Phase::PrePrepare => self.handle_pre_prepare(msg),
            Phase::Prepare => self.handle_prepare(msg),
            Phase::Commit => self.handle_commit(msg),
            Phase::ViewChange => self.handle_view_change(msg),
        };
        proof {
            if msg.phase == Phase::PrePrepare && r is Ok && pre.proposals_unique() {
                let key = (msg.view, msg.seq, msg.digest);
                assert(self.pre_prepared_proposals@ == pre.pre_prepared_proposals@.push((key, ())));
                let n = pre.pre_prepared_proposals@.len() as int;
                assert forall|i: int, j: int|
                    0 <= i < self.pre_prepared_proposals@.len() && 0 <= j
                        < self.pre_prepared_proposals@.len() && (#[trigger] self.pre_prepared_proposals@[i]).0.0
                        == (#[trigger] self.pre_prepared_proposals@[j]).0.0
                        && self.pre_prepared_proposals@[i].0.1 == self.pre_prepared_proposals@[j].0.1 implies i
                        == j by {
                    if i < n && j < n {
                        assert(self.pre_prepared_proposals@[i] == pre.pre_prepared_proposals@[i]);
                        assert(self.pre_prepared_proposals@[j] == pre.pre_prepared_proposals@[j]);
                    } else if i < n {
                        let e = pre.pre_prepared_proposals@[i];
                        assert(self.pre_prepared_proposals@[i] == e);
                        if e.0.2 != msg.digest {
                            assert(pre.conflicting_proposal(msg.view, msg.seq, msg.digest));
                        } else {
                            assert(e.0 == key);
                            assert(seq_has_key(pre.pre_prepared_proposals@, key));
                        }
                    } else if j < n {
                        let e = pre.pre_prepared_proposals@[j];
                        assert(self.pre_prepared_proposals@[j] == e);
                        if e.0.2 != msg.digest {
                            assert(pre.conflicting_proposal(msg.view, msg.seq, msg.digest));
                        } else {
                            assert(e.0 == key);
                            assert(seq_has_key(pre.pre_prepared_proposals@, key));
                        }
                    }
                }
            }
        }
        r
    }
}

impl PbftState {
    /// Checks a view-change payload: the sender must be registered, the
    /// signature over the payload's signed part must verify under the
    /// sender's key, and a non-zero prepared sequence number must be backed by
    /// a valid prepared certificate.  The state is not changed.
    pub fn handle_view_change_payload(&mut self, payload: &ViewChangePayload) -> (r: Result<(), &'static str>)
        requires
            old(self).wf(),
        ensures
            *final(self) == *old(self),
            !old(self).registered(payload.sender_id) ==> r == Err::<(), &'static str>(
                "UNAUTHORIZED_SENDER",
            ),
            old(self).registered(payload.sender_id) && !bls_valid(
                payload_canonical_bytes(*payload),
                payload.signature@,
                old(self).public_keys@[payload.sender_id]@,
            ) ==> r == Err::<(), &'static str>("CRYPTO_AUTH_FAILED"),
            old(self).registered(payload.sender_id) && bls_valid(
                payload_canonical_bytes(*payload),
                payload.signature@,
                old(self).public_keys@[payload.sender_id]@,
            ) ==> r == if payload.prepared_seq > 0 && !old(self).has_valid_prepared(
                payload.prepared_view,
                payload.prepared_seq,
                payload.digest,
            ) {
                Err::<(), &'static str>("CERTIFICATE_INVALID")
            } else {
                Ok::<(), &'static str>(())
            },
    {
        if !self.is_registered(payload.sender_id) {
            return Err("UNAUTHORIZED_SENDER");
        }
        let pk = *self.public_keys.get(&payload.sender_id).unwrap();
        let canonical = payload.canonical_bytes();
        if !verify_bls_signature(canonical.as_slice(), &payload.signature, &pk) {
            return Err("CRYPTO_AUTH_FAILED");
        }
        if payload.prepared_seq > 0 {
            if !self.find_valid_prepared(payload.prepared_view, payload.prepared_seq, &payload.digest) {
                return Err("CERTIFICATE_INVALID");
            }
        }
        Ok(())
    }
}

impl PbftState {
    /// The effect of replaying one logged message during recovery: the view
    /// and the sequence number rise to the record's, and the record's vote is
    /// applied without the checks of live message handling, whatever its
    /// sender.  Prepare and commit certificates are still formed only when
    /// their threshold signature verifies; a table whose quorum of lowest
    /// identifiers includes `u32::MAX` has no node position for it and forms
    /// no certificate.
    pub open spec fn replay_step(pre: Self, rec: WalRecord, post: Self) -> bool {
        let cv = if rec.view > pre.current_view {
            rec.view
        } else {
            pre.current_view
        };
        let hs = if rec.seq > pre.highest_seq {
            rec.seq
        } else {
            pre.highest_seq
        };
        let key = (rec.view, rec.seq, rec.digest);
        let q = pre.quorum_size as nat;
        if rec.phase == 0 {
            &&& post == PbftState {
                pre_prepared_proposals: post.pre_prepared_proposals,
                current_view: cv,
                highest_seq: hs,
                ..pre
            }
            &&& post.pre_prepared_proposals.wf()
            &&& table_inserted(pre.pre_prepared_proposals@, post.pre_prepared_proposals@, key, ())
        } else if rec.phase == 1 {
            let sigs = post.prepare_votes.lookup(key).unwrap();
            &&& vote_recorded(pre.prepare_votes, post.prepare_votes, key, rec.sender_id, rec.signature)
            &&& if sigs@.len() >= q && ids_fit(sigs@, q) && crate::threshold_bls::threshold_valid(
                vote_bytes(1, rec.view, rec.seq, rec.digest@),
                sigs@,
                pre.master_public_key@,
                q,
            ) {
                let cert = post.prepared_certificates.lookup((rec.view, rec.seq)).unwrap();
                &&& post == PbftState {
                    prepare_votes: post.prepare_votes,
                    prepared_certificates: post.prepared_certificates,
                    current_view: cv,
                    highest_seq: hs,
                    ..pre
                }
                &&& post.prepared_certificates.wf()
                &&& post.prepared_certificates.lookup((rec.view, rec.seq)) is Some
                &&& table_inserted(
                    pre.prepared_certificates@,
                    post.prepared_certificates@,
                    (rec.view, rec.seq),
                    cert,
                )
                &&& prepared_parts(cert) == (rec.view, rec.seq, rec.digest, sigs@)
            } else {
                post == PbftState {
                    prepare_votes: post.prepare_votes,
                    current_view: cv,
                    highest_seq: hs,
                    ..pre
                }
            }
        } else if rec.phase == 2 {
            let sigs = post.commit_votes.lookup(key).unwrap();
            &&& vote_recorded(pre.commit_votes, post.commit_votes, key, rec.sender_id, rec.signature)
            &&& if sigs@.len() >= q && ids_fit(sigs@, q) && crate::threshold_bls::threshold_valid(
                vote_bytes(2, rec.view, rec.seq, rec.digest@),
                sigs@,
                pre.master_public_key@,
                q,
            ) {
                let cert = post.commit_certificates.lookup((rec.view, rec.seq)).unwrap();
                &&& post == PbftState {
                    commit_votes: post.commit_votes,
                    commit_certificates: post.commit_certificates,
                    committed_digest: post.committed_digest,
                    current_view: cv,
                    highest_seq: hs,
                    ..pre
                }
                &&& post.commit_certificates.wf()
                &&& post.commit_certificates.lookup((rec.view, rec.seq)) is Some
                &&& table_inserted(
                    pre.commit_certificates@,
                    post.commit_certificates@,
                    (rec.view, rec.seq),
                    cert,
                )
                &&& cert.view == rec.view && cert.seq == rec.seq && cert.digest == rec.digest
                &&& cert.signatures@ == sigs@
                &&& post.committed_digest.wf()
                &&& table_inserted(
                    pre.committed_digest@,
                    post.committed_digest@,
                    (rec.view, rec.seq),
                    rec.digest,
                )
            } else {
                post == PbftState {
                    commit_votes: post.commit_votes,
                    current_view: cv,
                    highest_seq: hs,
                    ..pre
                }
            }
        } else if rec.phase == 3 {
            &&& vote_recorded(
                pre.view_change_votes,
                post.view_change_votes,
                rec.view,
                rec.sender_id,
                (rec.seq, rec.digest, rec.signature),
            )
            &&& post == PbftState {
                view_change_votes: post.view_change_votes,
                current_view: cv,
                highest_seq: hs,
                ..pre
            }
        } else {
            post == PbftState { current_view: cv, highest_seq: hs, ..pre }
        }
    }

    /// Replays one logged message (see `replay_step`).
    pub fn replay_entry(&mut self, rec: &WalRecord)
        requires
            old(self).wf(),
        ensures
            final(self).wf(),
            Self::replay_step(*old(self), *rec, *final(self)),
    {
        let ghost pre = *self;
        if rec.view > self.current_view {
            self.current_view = rec.view;
        }
        if rec.seq > self.highest_seq {
            self.highest_seq = rec.seq;
        }
        let key = (rec.view, rec.seq, rec.digest);
        if rec.phase == 0 {
            let ghost pre_p = self.pre_prepared_proposals;
            self.pre_prepared_proposals.insert(key, ());
            proof {
                if seq_has_key(pre_p@, key) {
                    let i = choose|i: int| 0 <= i < pre_p@.len() && (#[trigger] pre_p@[i]).0 == key;
                    assert(self.pre_prepared_proposals@ == pre_p@.update(i, (key, ())));
                }
            }
        } else if rec.phase == 1 {
            let sigs = record_vote(&mut self.prepare_votes, key, rec.sender_id, rec.signature);
            if sigs.len() >= self.quorum_size {
                let cert = PreparedCertificate {
                    view: rec.view,
                    seq: rec.seq,
                    digest: rec.digest,
                    signatures: sigs,
                };
                if signatures_fit(&cert.signatures, self.quorum_size) && cert.verify(
                    self.quorum_size,
                    &self.master_public_key,
                ) {
                    let ghost pre_certs = self.prepared_certificates;
                    self.prepared_certificates.insert((rec.view, rec.seq), cert);
                    proof {
                        let post_certs = self.prepared_certificates;
                        if seq_has_key(pre_certs@, (rec.view, rec.seq)) {
                            let i = choose|i: int| 0 <= i < pre_certs@.len() && (#[trigger] pre_certs@[i]).0 == (rec.view, rec.seq);
                            assert(post_certs@ == pre_certs@.update(i, ((rec.view, rec.seq), cert)));
                        }
                        assert forall|i: int| 0 <= i < post_certs@.len() implies sig_table_ok(
                            (#[trigger] post_certs@[i]).1.signatures,
                            self.quorum_size as nat,
                        ) by {
                            if i < pre_certs@.len() && post_certs@[i] == pre_certs@[i] {
                            } else {
                                assert(post_certs@[i].1 == cert);
                            }
                        }
                    }
                }
            }
        } else if rec.phase == 2 {
            let sigs = record_vote(&mut self.commit_votes, key, rec.sender_id, rec.signature);
            if sigs.len() >= self.quorum_size {
                let commit_cert = CommitCertificate {
                    view: rec.view,
                    seq: rec.seq,
                    digest: rec.digest,
                    signatures: sigs,
                };
                if signatures_fit(&commit_cert.signatures, self.quorum_size) && commit_cert.verify(
                    self.quorum_size,
                    &self.master_public_key,
                ) {
                    let ghost cert_copy = commit_cert;
                    let k0 = (rec.view, rec.seq);
                    self.commit_certificates.insert(k0, commit_cert);
                    self.committed_digest.insert(k0, rec.digest);
                    proof {
                        if seq_has_key(pre.commit_certificates@, k0) {
                            let i = choose|i: int| 0 <= i < pre.commit_certificates@.len() && (#[trigger] pre.commit_certificates@[i]).0 == k0;
                            assert(self.commit_certificates@ == pre.commit_certificates@.update(i, (k0, cert_copy)));
                        }
                        if seq_has_key(pre.committed_digest@, k0) {
                            let i = choose|i: int| 0 <= i < pre.committed_digest@.len() && (#[trigger] pre.committed_digest@[i]).0 == k0;
                            assert(self.committed_digest@ == pre.committed_digest@.update(i, (k0, rec.digest)));
                        }
                        assert forall|k: (u64, u64)| #![trigger self.committed_digest.lookup(k)]
                            self.committed_digest.lookup(k) is Some implies {
                                &&& self.commit_certificates.lookup(k) is Some
                                &&& self.commit_certificates.lookup(k).unwrap().digest
                                    == self.committed_digest.lookup(k).unwrap()
                                &&& commit_cert_valid(
                                    self.commit_certificates.lookup(k).unwrap(),
                                    self.quorum_size as nat,
                                    self.master_public_key@,
                                )
                            } by {
                            if k != k0 {
                                assert(pre.committed_digest.lookup(k) is Some);
                            }
                        }
                    }
                }
            }
        } else if rec.phase == 3 {
            let _ = record_vote(
                &mut self.view_change_votes,
                rec.view,
                rec.sender_id,
                (rec.seq, rec.digest, rec.signature),
            );
        }
    }

    /// Replays logged messages in order (see `replay_step`).
    pub fn recover(&mut self, records: &[WalRecord])
        requires
            old(self).wf(),
        ensures
            final(self).wf(),
            exists|states: Seq<PbftState>|
                {
                    &&& states.len() == records@.len() + 1
                    &&& states[0] == *old(self)
                    &&& states.last() == *final(self)
                    &&& forall|i: int|
                        0 <= i < records@.len() ==> Self::replay_step(
                            #[trigger] states[i],
                            records@[i],
                            states[i + 1],
                        )
                },
    {
        let ghost mut states: Seq<PbftState> = seq![*self];
        let mut i: usize = 0;
        while i < records.len()
            invariant
                self.wf(),
                0 <= i <= records@.len(),
                states.len() == i + 1,
                states[0] == *old(self),
                states.last() == *self,
                forall|j: int| 0 <= j < i ==> Self::replay_step(#[trigger] states[j], records@[j], states[j + 1]),
            decreases records@.len() - i,
        {
            let ghost before = *self;
            self.replay_entry(&records[i]);
            proof {
                let ns = states.push(*self);
                assert forall|j: int| 0 <= j < i + 1 implies Self::replay_step(#[trigger] ns[j], records@[j], ns[j + 1]) by {
                    if j < i {
                        assert(ns[j] == states[j] && ns[j + 1] == states[j + 1]);
                    } else {
                        assert(ns[j] == before);
                    }
                }
                states = ns;
            }
            i = i + 1;
        }
    }
}

} // verus!
