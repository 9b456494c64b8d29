//! The reputation store: blacklist plus tracked-contract table.

use vstd::map::*;
use vstd::prelude::*;

use crate::model::{
    load_model, mark_terminated_model, outcome_blacklists, resolve_model, track_model,
    AgreementInfo, Outcome, StoreModel,
};
use crate::party::PartyId;

verus! {

/// One tracked contract: created on approval, removed exactly once by a
/// settlement, a rejection or a deadline expiry.
pub struct TrackedAgreement {
    /// Unique key of the contract.
    pub id: String,
    /// The counterparty that signed it.
    pub node: PartyId,
    /// Signing timestamp, milliseconds since an epoch.
    pub signed: i64,
    /// Termination instant on the host's monotonic clock, milliseconds;
    /// `None` while the contract is still running.
    pub terminated: Option<u64>,
}

impl TrackedAgreement {
    /// What the model remembers of this entry.
    pub open spec fn info(&self) -> AgreementInfo {
        AgreementInfo {
            node: self.node@,
            signed: self.signed as int,
            terminated: match self.terminated {
                Some(t) => Some(t as int),
                None => None,
            },
        }
    }
}

/// The shared state: the blacklist and the table of tracked contracts.
///
/// The blacklist is held as a duplicate-free vector, so membership is
/// binary and a persisted snapshot names each party once; the table is a
/// vector with unique contract ids. Both invariants are part of [`Self::wf`].
pub struct BlacklistState {
    pub blacklist: Vec<PartyId>,
    pub agreements: Vec<TrackedAgreement>,
}

/// The identities of a sequence of parties.
pub open spec fn party_views(s: Seq<PartyId>) -> Seq<Seq<char>> {
    s.map_values(|p: PartyId| p@)
}

impl BlacklistState {
    /// The blacklist as a sequence of party identities.
    pub open spec fn blacklist_seq(&self) -> Seq<Seq<char>> {
        party_views(self.blacklist@)
    }

    /// The contract ids currently tracked, in table order.
    pub open spec fn agreement_ids(&self) -> Seq<Seq<char>> {
        self.agreements@.map_values(|a: TrackedAgreement| a.id@)
    }

    /// Well-formedness: contract ids are unique and the blacklist holds
    /// each party at most once.
    pub open spec fn wf(&self) -> bool {
        &&& forall|i: int, j: int|
            0 <= i < j < self.agreements@.len() ==> self.agreements@[i].id@ != self.agreements@[j].id@
        &&& forall|i: int, j: int|
            0 <= i < j < self.blacklist@.len() ==> self.blacklist@[i]@ != self.blacklist@[j]@
    }
}

impl View for BlacklistState {
    type V = StoreModel;

    open spec fn view(&self) -> StoreModel {
        StoreModel {
            blacklist: self.blacklist_seq().to_set(),
            agreements: Map::new(
                |id: Seq<char>| self.agreement_ids().contains(id),
                |id: Seq<char>|
                    self.agreements@[choose|i: int|
                        0 <= i < self.agreements@.len() && self.agreements@[i].id@ == id].info(),
            ),
        }
    }
}

impl BlacklistState {
    /// The table entry at index `i` is what the model maps its id to.
    proof fn lemma_entry_in_map(&self, i: int)
        requires
            self.wf(),
            0 <= i < self.agreements@.len(),
        ensures
            self@.agreements.contains_key(self.agreements@[i].id@),
            self@.agreements[self.agreements@[i].id@] == self.agreements@[i].info(),
    {
        let id = self.agreements@[i].id@;
        assert(self.agreement_ids()[i] == id);
        assert(self.agreement_ids().contains(id));
        let j = choose|j: int| 0 <= j < self.agreements@.len() && self.agreements@[j].id@ == id;
        assert(j == i);
    }

    /// An id the model knows occurs in the table.
    proof fn lemma_map_key_in_table(&self, id: Seq<char>)
        requires
            self@.agreements.contains_key(id),
        ensures
            exists|i: int| 0 <= i < self.agreements@.len() && self.agreements@[i].id@ == id,
    {
        assert(self.agreement_ids().contains(id));
        let i = choose|i: int| 0 <= i < self.agreement_ids().len() && self.agreement_ids()[i] == id;
        assert(self.agreements@[i].id@ == id);
    }

    /// Index of the table entry for `id`, if the contract is tracked.
    fn find_index(&self, id: &String) -> (r: Option<usize>)
        requires
            self.wf(),
        ensures
            match r {
                Some(i) => i < self.agreements@.len() && self.agreements@[i as int].id@ == id@,
                None => !self@.agreements.contains_key(id@),
            },
    {
        let n = self.agreements.len();
        for i in 0..n
            invariant
                n == self.agreements@.len(),
                forall|k: int| 0 <= k < i ==> self.agreements@[k].id@ != id@,
        {
            if self.agreements[i].id == *id {
                return Some(i);
            }
        }
        proof {
            if self@.agreements.contains_key(id@) {
                self.lemma_map_key_in_table(id@);
            }
        }
        None
    }

    /// Whether `id` is currently tracked.
    pub fn is_tracked(&self, id: &String) -> (r: bool)
        requires
            self.wf(),
        ensures
            r == self@.agreements.contains_key(id@),
    {
        let r = self.find_index(id);
        proof {
            if let Some(i) = r {
                self.lemma_entry_in_map(i as int);
            }
        }
        r.is_some()
    }

    /// The counterparty of `id`, if the contract is still tracked.
    pub fn tracked_party(&self, id: &String) -> (r: Option<PartyId>)
        requires
            self.wf(),
        ensures
            match r {
                Some(p) => self@.agreements.contains_key(id@) && p@ == self@.agreements[id@].node,
                None => !self@.agreements.contains_key(id@),
            },
    {
        match self.find_index(id) {
            Some(i) => {
                proof {
                    self.lemma_entry_in_map(i as int);
                }
                Some(self.agreements[i].node.duplicate())
            },
            None => None,
        }
    }

    /// Whether `party` is currently blacklisted.
    pub fn is_blacklisted(&self, party: &PartyId) -> (r: bool)
        ensures
            r == self@.blacklist.contains(party@),
    {
        let n = self.blacklist.len();
        for i in 0..n
            invariant
                n == self.blacklist@.len(),
                forall|k: int| 0 <= k < i ==> self.blacklist@[k]@ != party@,
        {
            if self.blacklist[i].same_party(party) {
                assert(self.blacklist_seq()[i as int] == party@);
                return true;
            }
        }
        assert(forall|k: int|
            0 <= k < self.blacklist_seq().len() ==> self.blacklist_seq()[k] != party@);
        false
    }

    /// Insert a new tracked contract for `id`, not yet terminated. If `id`
    /// is already tracked, the old entry is overwritten (idempotent
    /// re-approval).
    pub fn track(&mut self, id: String, node: PartyId, signed: i64)
        requires
            old(self).wf(),
        ensures
            final(self).wf(),
            final(self)@ == track_model(old(self)@, id@, node@, signed as int),
    {
        let ghost gid = id@;
        let ghost gnode = node@;
        let idx = self.find_index(&id);
        let rec = TrackedAgreement { id, node, signed, terminated: None };
        match idx {
            Some(i) => {
                proof {
                    old(self).lemma_entry_in_map(i as int);
                }
                self.agreements[i] = rec;
                proof {
                    assert(forall|k: int|
                        0 <= k < self.agreements@.len() ==> self.agreements@[k].id@
                            == old(self).agreements@[k].id@);
                    assert(self.agreement_ids() =~= old(self).agreement_ids());
                    assert forall|k: Seq<char>| self@.agreements.contains_key(k) implies
                        self@.agreements[k] == track_model(old(self)@, gid, gnode, signed as int).agreements[k] by {
                        let j = choose|j: int|
                            0 <= j < self.agreements@.len() && self.agreements@[j].id@ == k;
                        if k == gid {
                            assert(j == i);
                        } else {
                            assert(j != i);
                            old(self).lemma_entry_in_map(j);
                        }
                    }
                    assert(self@ =~= track_model(old(self)@, gid, gnode, signed as int));
                }
            },
            None => {
                self.agreements.push(rec);
                proof {
                    let oldn = old(self).agreements@.len() as int;
                    assert(self.agreements@.len() == oldn + 1);
                    assert(forall|k: int|
                        0 <= k < oldn ==> self.agreements@[k] == old(self).agreements@[k]);
                    assert(self.agreements@[oldn].id@ == gid);
                    assert forall|t: int| 0 <= t < oldn implies old(self).agreements@[t].id@ != gid by {
                        assert(old(self).agreement_ids()[t] == old(self).agreements@[t].id@);
                    }
                    assert(self.wf());
                    assert_maps_equal!(
                        self@.agreements,
                        track_model(old(self)@, gid, gnode, signed as int).agreements,
                        k => {
                        if self@.agreements.contains_key(k) {
                            let j = choose|j: int|
                                0 <= j < self.agreements@.len() && self.agreements@[j].id@ == k;
                            assert(self.agreement_ids().contains(k));
                            assert(self.agreements@[j].id@ == k);
                            if j == oldn {
                                assert(k == gid);
                                assert(self@.agreements[k] == self.agreements@[j].info());
                            } else {
                                assert(k != gid);
                                old(self).lemma_entry_in_map(j);
                                assert(old(self).agreement_ids()[j] == k);
                            }
                        }
                        if track_model(old(self)@, gid, gnode, signed as int).agreements.contains_key(k) {
                            if k == gid {
                                assert(self.agreement_ids()[oldn] == gid);
                                assert(self.agreement_ids().contains(k));
                            } else {
                                old(self).lemma_map_key_in_table(k);
                                let j = choose|j: int|
                                    0 <= j < old(self).agreements@.len()
                                        && old(self).agreements@[j].id@ == k;
                                assert(self.agreement_ids()[j] == k);
                                assert(self.agreement_ids().contains(k));
                            }
                        }
                    });
                    assert(self@ =~= track_model(old(self)@, gid, gnode, signed as int));
                }
            },
        }
    }

    /// Record the termination instant of `id` if it is still tracked, and
    /// return its counterparty; an unknown contract is a silent no-op.
    pub fn mark_terminated(&mut self, id: &String, now: u64) -> (r: Option<PartyId>)
        requires
            old(self).wf(),
        ensures
            final(self).wf(),
            final(self)@ == mark_terminated_model(old(self)@, id@, now as int),
            match r {
                Some(p) => old(self)@.agreements.contains_key(id@)
                    && p@ == old(self)@.agreements[id@].node,
                None => !old(self)@.agreements.contains_key(id@),
            },
    {
        match self.find_index(id) {
            Some(i) => {
                proof {
                    old(self).lemma_entry_in_map(i as int);
                }
                self.agreements[i].terminated = Some(now);
                let p = self.agreements[i].node.duplicate();
                proof {
                    assert(forall|k: int|
                        0 <= k < self.agreements@.len() ==> self.agreements@[k].id@
                            == old(self).agreements@[k].id@);
                    assert forall|k: Seq<char>| self@.agreements.contains_key(k) implies
                        self@.agreements[k] == mark_terminated_model(
                        old(self)@,
                        id@,
                        now as int,
                    ).agreements[k] by {
                        let j = choose|j: int|
                            0 <= j < self.agreements@.len() && self.agreements@[j].id@ == k;
                        if k == id@ {
                            assert(j == i);
                        } else {
                            assert(j != i as int);
                            old(self).lemma_entry_in_map(j);
                        }
                    }
                    assert(self.agreement_ids() =~= old(self).agreement_ids());
                    assert(self@ =~= mark_terminated_model(old(self)@, id@, now as int));
                }
                Some(p)
            },
            None => {
                proof {
                    assert(self@ =~= mark_terminated_model(old(self)@, id@, now as int));
                }
                None
            },
        }
    }

    /// Put `party` on the blacklist; a party already present stays present
    /// once (set semantics, no duplicate entries).
    fn blacklist_insert(&mut self, party: PartyId)
        requires
            old(self).wf(),
        ensures
            final(self).wf(),
            final(self).agreements == old(self).agreements,
            final(self)@.blacklist == old(self)@.blacklist.insert(party@),
            final(self)@.agreements == old(self)@.agreements,
    {
        let present = self.is_blacklisted(&party);
        let ghost gp = party@;
        if !present {
            self.blacklist.push(party);
            proof {
                let oldn = old(self).blacklist@.len() as int;
                assert(self.blacklist_seq().len() == oldn + 1);
                assert(forall|k: int|
                    0 <= k < oldn ==> self.blacklist_seq()[k] == old(self).blacklist_seq()[k]);
                assert(self.blacklist_seq()[oldn] == gp);
                assert forall|p: Seq<char>| self@.blacklist.contains(p) <==> old(
                    self,
                )@.blacklist.insert(gp).contains(p) by {
                    if self.blacklist_seq().contains(p) {
                        let j = choose|j: int|
                            0 <= j < self.blacklist_seq().len() && self.blacklist_seq()[j] == p;
                        if j < oldn {
                            assert(old(self).blacklist_seq()[j] == p);
                        }
                    }
                    if old(self).blacklist_seq().contains(p) {
                        let j = choose|j: int|
                            0 <= j < old(self).blacklist_seq().len() && old(
                                self,
                            ).blacklist_seq()[j] == p;
                        assert(self.blacklist_seq()[j] == p);
                    }
                    if p == gp {
                        assert(self.blacklist_seq().contains(p));
                    }
                }
                assert(self@.blacklist =~= old(self)@.blacklist.insert(gp));
                assert(!old(self).blacklist_seq().contains(gp));
                assert forall|a: int, b: int|
                    0 <= a < b < self.blacklist@.len() implies self.blacklist@[a]@
                    != self.blacklist@[b]@ by {
                    assert(self.blacklist_seq()[a] == self.blacklist@[a]@);
                    assert(self.blacklist_seq()[b] == self.blacklist@[b]@);
                    if b < oldn {
                        assert(old(self).blacklist@[a]@ != old(self).blacklist@[b]@);
                    } else {
                        assert(old(self).blacklist_seq()[a] != gp);
                    }
                }
            }
        } else {
            proof {
                assert(self@.blacklist.contains(gp));
                assert(self@.blacklist =~= old(self)@.blacklist.insert(gp));
            }
        }
    }

    /// Resolve `id`: remove its entry if still tracked, blacklisting the
    /// counterparty when the outcome calls for it. Returns whether a removal
    /// actually occurred — the arbitration signal that makes every later
    /// resolution of the same contract a no-op.
    pub fn resolve(&mut self, id: &String, outcome: Outcome) -> (removed: bool)
        requires
            old(self).wf(),
        ensures
            final(self).wf(),
            final(self)@ == resolve_model(old(self)@, id@, outcome),
            removed == old(self)@.agreements.contains_key(id@),
    {
        match self.find_index(id) {
            Some(i) => {
                proof {
                    old(self).lemma_entry_in_map(i as int);
                }
                let rec = self.agreements.remove(i);
                let ghost mid = *self;
                proof {
                    assert(rec == old(self).agreements@[i as int]);
                    assert(forall|k: int|
                        0 <= k < i ==> self.agreements@[k] == old(self).agreements@[k]);
                    assert(forall|k: int|
                        i <= k < self.agreements@.len() ==> self.agreements@[k] == old(
                            self,
                        ).agreements@[k + 1]);
                    assert(mid.wf());
                    assert_maps_equal!(
                        mid@.agreements,
                        old(self)@.agreements.remove(id@),
                        k => {
                        if mid@.agreements.contains_key(k) {
                            let j = choose|j: int|
                                0 <= j < mid.agreements@.len() && mid.agreements@[j].id@ == k;
                            assert(mid.agreement_ids().contains(k));
                            let jo = if j < i as int { j } else { j + 1 };
                            old(self).lemma_entry_in_map(jo);
                            assert(old(self).agreement_ids()[jo] == k);
                            assert(k != id@);
                            mid.lemma_entry_in_map(j);
                        }
                        if old(self)@.agreements.contains_key(k) && k != id@ {
                            old(self).lemma_map_key_in_table(k);
                            let j = choose|j: int|
                                0 <= j < old(self).agreements@.len()
                                    && old(self).agreements@[j].id@ == k;
                            assert(j != i as int);
                            let jn = if j < i as int { j } else { j - 1 };
                            assert(mid.agreements@[jn].id@ == k);
                            assert(mid.agreement_ids()[jn] == k);
                            assert(mid.agreement_ids().contains(k));
                        }
                    });
                    assert(mid@.blacklist == old(self)@.blacklist);
                }
                match outcome {
                    Outcome::Settled => {
                        proof {
                            assert(self@ =~= resolve_model(old(self)@, id@, outcome));
                        }
                    },
                    Outcome::Rejected | Outcome::DeadlineExpired => {
                        self.blacklist_insert(rec.node);
                        proof {
                            assert(self@.agreements == mid@.agreements);
                            assert(old(self)@.agreements[id@].node == rec.node@);
                            assert(self@ =~= resolve_model(old(self)@, id@, outcome));
                        }
                    },
                }
                true
            },
            None => {
                proof {
                    assert(self@ =~= resolve_model(old(self)@, id@, outcome));
                }
                false
            },
        }
    }

    /// The blacklist as a flat list, one entry per blacklisted party, for
    /// the persistence snapshot.
    pub fn snapshot_blacklist(&self) -> (r: Vec<PartyId>)
        ensures
            party_views(r@) == self.blacklist_seq(),
            party_views(r@).to_set() == self@.blacklist,
    {
        let n = self.blacklist.len();
        let mut r: Vec<PartyId> = Vec::new();
        for i in 0..n
            invariant
                n == self.blacklist@.len(),
                r@.len() == i,
                forall|k: int| 0 <= k < i ==> r@[k]@ == self.blacklist@[k]@,
        {
            r.push(self.blacklist[i].duplicate());
        }
        proof {
            assert(party_views(r@) =~= self.blacklist_seq());
        }
        r
    }

    /// A fresh store: the parties of the loaded snapshot are blacklisted
    /// (each once, whatever duplicates the snapshot holds) and no contract
    /// is tracked.
    pub fn load_blacklist(snapshot: &Vec<PartyId>) -> (r: BlacklistState)
        ensures
            r.wf(),
            r@ == load_model(party_views(snapshot@)),
    {
        let mut st = BlacklistState { blacklist: Vec::new(), agreements: Vec::new() };
        let n = snapshot.len();
        for i in 0..n
            invariant
                st.wf(),
                st.agreements@.len() == 0,
                n == snapshot@.len(),
                forall|p: Seq<char>| #![auto]
                    st@.blacklist.contains(p) <==> party_views(snapshot@).take(
                        i as int,
                    ).contains(p),
        {
            let ghost pre = st;
            let p = snapshot[i].duplicate();
            let ghost gp = p@;
            let present = st.is_blacklisted(&p);
            if !present {
                st.blacklist.push(p);
            }
            proof {
                let views = party_views(snapshot@);
                assert(views[i as int] == gp);
                assert(views.take(i + 1 as int) =~= views.take(i as int).push(gp));
                if !present {
                    let oldn = pre.blacklist@.len() as int;
                    assert(forall|k: int|
                        0 <= k < oldn ==> st.blacklist_seq()[k] == pre.blacklist_seq()[k]);
                    assert(st.blacklist_seq()[oldn] == gp);
                    assert(!pre.blacklist_seq().contains(gp));
                    assert forall|a: int, b: int|
                        0 <= a < b < st.blacklist@.len() implies st.blacklist@[a]@
                        != st.blacklist@[b]@ by {
                        assert(st.blacklist_seq()[a] == st.blacklist@[a]@);
                        assert(st.blacklist_seq()[b] == st.blacklist@[b]@);
                        if b < oldn {
                            assert(pre.blacklist@[a]@ != pre.blacklist@[b]@);
                        } else {
                            assert(pre.blacklist_seq()[a] != gp);
                        }
                    }
                    assert(st.wf());
                }
                let tv = views.take(i + 1 as int);
                assert forall|q: Seq<char>| #![auto]
                    st@.blacklist.contains(q) <==> views.take(i + 1 as int).contains(q) by {
                    if st.blacklist_seq().contains(q) {
                        let j = choose|j: int|
                            0 <= j < st.blacklist_seq().len() && st.blacklist_seq()[j] == q;
                        if j < pre.blacklist@.len() as int {
                            assert(pre.blacklist_seq()[j] == q);
                            assert(pre.blacklist_seq().contains(q));
                            assert(pre@.blacklist.contains(q));
                            assert(views.take(i as int).contains(q));
                            let t = choose|t: int|
                                0 <= t < views.take(i as int).len() && views.take(i as int)[t]
                                    == q;
                            assert(tv[t] == q);
                            assert(tv.contains(q));
                        } else {
                            assert(q == gp);
                            assert(tv[i as int] == gp);
                            assert(tv.contains(q));
                        }
                    }
                    if tv.contains(q) {
                        let j = choose|j: int| 0 <= j < tv.len() && tv[j] == q;
                        if j < i as int {
                            assert(views.take(i as int)[j] == q);
                            assert(views.take(i as int).contains(q));
                            assert(pre@.blacklist.contains(q));
                            assert(pre.blacklist_seq().contains(q));
                            let t = choose|t: int|
                                0 <= t < pre.blacklist_seq().len() && pre.blacklist_seq()[t] == q;
                            assert(st.blacklist_seq()[t] == q);
                            assert(st.blacklist_seq().contains(q));
                        } else {
                            assert(q == gp);
                            if present {
                                assert(pre@.blacklist.contains(gp));
                                assert(pre.blacklist_seq().contains(q));
                                let t = choose|t: int|
                                    0 <= t < pre.blacklist_seq().len() && pre.blacklist_seq()[t]
                                        == q;
                                assert(st.blacklist_seq()[t] == q);
                                assert(st.blacklist_seq().contains(q));
                            } else {
                                assert(st.blacklist_seq()[pre.blacklist@.len() as int] == q);
                                assert(st.blacklist_seq().contains(q));
                            }
                        }
                    }
                }
            }
        }
        proof {
            let views = party_views(snapshot@);
            assert(views.take(n as int) =~= views);
            assert(st@.blacklist =~= load_model(views).blacklist);
            assert forall|k: Seq<char>| !st@.agreements.contains_key(k) by {
                if st.agreement_ids().contains(k) {
                    let j = choose|j: int|
                        0 <= j < st.agreement_ids().len() && st.agreement_ids()[j] == k;
                }
            }
            assert(st@.agreements =~= load_model(views).agreements);
            assert(st@ =~= load_model(views));
        }
        st
    }
}

} // verus!
