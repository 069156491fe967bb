//! The proof store of the DeFrida side network: the proposer stores, for each
//! proposal (a view and a data hash), the proof meant for each validator; a
//! validator asks for its proof of a proposal and gets it back.
use vstd::prelude::*;

verus! {

// ---------------------------------------------------------------------------
// Association lists
// ---------------------------------------------------------------------------

/// The map an association list stands for: a later pair with the same key wins.
pub open spec fn assoc_map<K, V>(s: Seq<(K, V)>) -> Map<K, V>
    decreases s.len(),
{
    if s.len() == 0 {
        Map::empty()
    } else {
        assoc_map(s.drop_last()).insert(s.last().0, s.last().1)
    }
}

/// No key occurs twice.
pub open spec fn keys_distinct<K, V>(s: Seq<(K, V)>) -> bool {
    forall|i: int, j: int| 0 <= i < j < s.len() ==> s[i].0 != s[j].0
}

proof fn lemma_assoc_get<K, V>(s: Seq<(K, V)>, i: int)
    requires
        keys_distinct(s),
        0 <= i < s.len(),
    ensures
        assoc_map(s).contains_key(s[i].0),
        assoc_map(s)[s[i].0] == s[i].1,
    decreases s.len(),
{
    if i < s.len() - 1 {
        lemma_assoc_get(s.drop_last(), i);
        assert(s.drop_last()[i] == s[i]);
        assert(s[i].0 != s[s.len() - 1].0);
    }
}

proof fn lemma_assoc_absent<K, V>(s: Seq<(K, V)>, k: K)
    requires
        forall|i: int| 0 <= i < s.len() ==> (#[trigger] s[i]).0 != k,
    ensures
        !assoc_map(s).contains_key(k),
    decreases s.len(),
{
    if s.len() > 0 {
        assert forall|i: int| 0 <= i < s.drop_last().len() implies (#[trigger] s.drop_last()[i]).0 != k by {
            assert(s.drop_last()[i] == s[i]);
        }
        lemma_assoc_absent(s.drop_last(), k);
        assert(s[s.len() - 1].0 != k);
    }
}

proof fn lemma_assoc_update<K, V>(s: Seq<(K, V)>, i: int, v: V)
    requires
        keys_distinct(s),
        0 <= i < s.len(),
    ensures
        assoc_map(s.update(i, (s[i].0, v))) == assoc_map(s).insert(s[i].0, v),
    decreases s.len(),
{
    let t = s.update(i, (s[i].0, v));
    if i == s.len() - 1 {
        assert(t.drop_last() =~= s.drop_last());
        assert(assoc_map(t) =~= assoc_map(s).insert(s[i].0, v));
    } else {
        assert forall|a: int, b: int| 0 <= a < b < s.drop_last().len() implies s.drop_last()[a].0 != s.drop_last()[b].0 by {
            assert(s.drop_last()[a] == s[a] && s.drop_last()[b] == s[b]);
        }
        lemma_assoc_update(s.drop_last(), i, v);
        assert(t.drop_last() =~= s.drop_last().update(i, (s[i].0, v)));
        assert(s.drop_last()[i] == s[i]);
        assert(s[i].0 != s[s.len() - 1].0);
        assert(assoc_map(t) =~= assoc_map(s).insert(s[i].0, v));
    }
}

proof fn lemma_assoc_push<K, V>(s: Seq<(K, V)>, k: K, v: V)
    ensures
        assoc_map(s.push((k, v))) == assoc_map(s).insert(k, v),
{
    assert(s.push((k, v)).drop_last() =~= s);
}

// ---------------------------------------------------------------------------
// The store
// ---------------------------------------------------------------------------

/// The proofs stored for one proposal, each with the key of the validator it is for.
pub struct ProposalProofs<P> {
    pub view: u64,
    pub data_hash: Vec<u8>,
    pub proofs: Vec<(Vec<u8>, P)>,
}

/// The proofs of one proposal, by validator key.
pub open spec fn validator_entries<P>(proofs: Seq<(Vec<u8>, P)>) -> Seq<(Seq<u8>, P)> {
    proofs.map_values(|e: (Vec<u8>, P)| (e.0@, e.1))
}

/// The proposals, each keyed by its view and data hash, with its proofs by validator key.
pub open spec fn proposal_entries<P>(props: Seq<ProposalProofs<P>>) -> Seq<((u64, Seq<u8>), Map<Seq<u8>, P>)> {
    props.map_values(|p: ProposalProofs<P>| ((p.view, p.data_hash@), assoc_map(validator_entries(p.proofs@))))
}

/// The proposals are keyed without repetition, and so are the proofs of each.
pub open spec fn store_wf<P>(props: Seq<ProposalProofs<P>>) -> bool {
    &&& keys_distinct(proposal_entries(props))
    &&& forall|i: int| 0 <= i < props.len() ==> keys_distinct(validator_entries(#[trigger] props[i].proofs@))
}

/// What storing `proof` for `validator` under the proposal `(view, data_hash)` makes of
/// the store's contents: that proof replaces any earlier one for the same key.
pub open spec fn store_spec<P>(
    m: Map<(u64, Seq<u8>), Map<Seq<u8>, P>>,
    view: u64,
    data_hash: Seq<u8>,
    validator: Seq<u8>,
    proof: P,
) -> Map<(u64, Seq<u8>), Map<Seq<u8>, P>> {
    let inner = if m.contains_key((view, data_hash)) {
        m[(view, data_hash)]
    } else {
        Map::empty()
    };
    m.insert((view, data_hash), inner.insert(validator, proof))
}

/// The proof stored for `validator` under the proposal `(view, data_hash)`, if any.
pub open spec fn lookup_spec<P>(
    m: Map<(u64, Seq<u8>), Map<Seq<u8>, P>>,
    view: u64,
    data_hash: Seq<u8>,
    validator: Seq<u8>,
) -> Option<P> {
    if m.contains_key((view, data_hash)) && m[(view, data_hash)].contains_key(validator) {
        Some(m[(view, data_hash)][validator])
    } else {
        None
    }
}

/// The proofs the side network holds, by proposal and validator.
pub struct ProofStore<P> {
    proposals: Vec<ProposalProofs<P>>,
}

impl<P> ProofStore<P> {
    #[verifier::type_invariant]
    spec fn well_formed(self) -> bool {
        store_wf(self.proposals@)
    }

    /// The store's contents: for each proposal `(view, data_hash)`, its proofs by validator key.
    pub closed spec fn contents(&self) -> Map<(u64, Seq<u8>), Map<Seq<u8>, P>> {
        assoc_map(proposal_entries(self.proposals@))
    }
}

impl<P> View for ProofStore<P> {
    type V = Map<(u64, Seq<u8>), Map<Seq<u8>, P>>;

    open spec fn view(&self) -> Map<(u64, Seq<u8>), Map<Seq<u8>, P>> {
        self.contents()
    }
}

fn same_bytes(a: &Vec<u8>, b: &Vec<u8>) -> (r: bool)
    ensures
        r == (a@ == b@),
{
    if a.len() != b.len() {
        return false;
    }
    let mut i: usize = 0;
    while i < a.len()
        invariant
            a@.len() == b@.len(),
            i <= a@.len(),
            forall|k: int| 0 <= k < i ==> a@[k] == b@[k],
        decreases a.len() - i,
    {
        if a[i] != b[i] {
            return false;
        }
        i += 1;
    }
    assert(a@ =~= b@);
    true
}

fn copy_key(v: &Vec<u8>) -> (r: Vec<u8>)
    ensures
        r@ == v@,
{
    let mut out: Vec<u8> = Vec::new();
    let mut i: usize = 0;
    while i < v.len()
        invariant
            i <= v@.len(),
            out@ == v@.take(i as int),
        decreases v.len() - i,
    {
        out.push(v[i]);
        i += 1;
        assert(out@ =~= v@.take(i as int));
    }
    assert(v@.take(v@.len() as int) =~= v@);
    out
}

/// Index of the proposal `(view, data_hash)`, if it is stored.
fn find_proposal<P>(props: &Vec<ProposalProofs<P>>, view: u64, data_hash: &Vec<u8>) -> (r: Option<usize>)
    ensures
        match r {
            Some(i) => i < props@.len() && props@[i as int].view == view && props@[i as int].data_hash@ == data_hash@,
            None => forall|i: int| 0 <= i < props@.len() ==> (#[trigger] proposal_entries(props@)[i]).0 != (view, data_hash@),
        },
{
    let mut i: usize = 0;
    while i < props.len()
        invariant
            i <= props@.len(),
            forall|k: int| 0 <= k < i ==> (#[trigger] proposal_entries(props@)[k]).0 != (view, data_hash@),
        decreases props.len() - i,
    {
        if props[i].view == view && same_bytes(&props[i].data_hash, data_hash) {
            return Some(i);
        }
        i += 1;
    }
    None
}

/// Index of the proof for `validator`, if one is stored.
fn find_validator<P>(proofs: &Vec<(Vec<u8>, P)>, validator: &Vec<u8>) -> (r: Option<usize>)
    ensures
        match r {
            Some(j) => j < proofs@.len() && proofs@[j as int].0@ == validator@,
            None => forall|j: int| 0 <= j < proofs@.len() ==> (#[trigger] validator_entries(proofs@)[j]).0 != validator@,
        },
{
    let mut j: usize = 0;
    while j < proofs.len()
        invariant
            j <= proofs@.len(),
            forall|k: int| 0 <= k < j ==> (#[trigger] validator_entries(proofs@)[k]).0 != validator@,
        decreases proofs.len() - j,
    {
        if same_bytes(&proofs[j].0, validator) {
            return Some(j);
        }
        j += 1;
    }
    None
}

impl<P> ProofStore<P> {
    /// A store holding no proof.
    pub fn new() -> (r: Self)
        ensures
            r@ == Map::<(u64, Seq<u8>), Map<Seq<u8>, P>>::empty(),
    {
        let r = ProofStore { proposals: Vec::new() };
        assert(r@ =~= Map::<(u64, Seq<u8>), Map<Seq<u8>, P>>::empty());
        r
    }

    /// Stores `proof` for `validator` under the proposal `(view, data_hash)`,
    /// replacing an earlier proof for the same key (see `store_spec`).
    pub fn store(&mut self, view: u64, data_hash: Vec<u8>, validator: Vec<u8>, proof: P)
        ensures
            final(self)@ == store_spec(old(self)@, view, data_hash@, validator@, proof),
    {
        proof {
            use_type_invariant(&*self);
        }
        let ghost old_props = self.proposals@;
        let mut props: Vec<ProposalProofs<P>> = Vec::new();
        std::mem::swap(&mut props, &mut self.proposals);
        assert(props@ == old_props);
        let ghost outer = proposal_entries(old_props);
        match find_proposal(&props, view, &data_hash) {
            Some(i) => {
                let mut prop = ProposalProofs { view: 0, data_hash: Vec::new(), proofs: Vec::new() };
                std::mem::swap(&mut prop, &mut props[i]);
                let ghost old_prop = old_props[i as int];
                assert(prop == old_prop);
                let ghost inner = validator_entries(old_prop.proofs@);
                assert(keys_distinct(inner));
                match find_validator(&prop.proofs, &validator) {
                    Some(j) => {
                        prop.proofs.set(j, (validator, proof));
                        proof {
                            assert(validator_entries(prop.proofs@) =~= inner.update(j as int, (inner[j as int].0, proof)));
                            lemma_assoc_update(inner, j as int, proof);
                        }
                    },
                    None => {
                        let ghost key = validator@;
                        prop.proofs.push((validator, proof));
                        proof {
                            assert(validator_entries(prop.proofs@) =~= inner.push((key, proof)));
                            lemma_assoc_push(inner, key, proof);
                            lemma_assoc_absent(inner, key);
                        }
                    },
                }
                let ghost new_inner = assoc_map(validator_entries(prop.proofs@));
                proof {
                    lemma_assoc_get(outer, i as int);
                    assert(new_inner =~= store_spec(assoc_map(outer), view, data_hash@, validator@, proof)[(view, data_hash@)]);
                }
                props.set(i, prop);
                proof {
                    assert(proposal_entries(props@) =~= outer.update(i as int, (outer[i as int].0, new_inner)));
                    lemma_assoc_update(outer, i as int, new_inner);
                    assert(assoc_map(proposal_entries(props@)) =~= store_spec(assoc_map(outer), view, data_hash@, validator@, proof));
                    assert forall|a: int| 0 <= a < props@.len() implies keys_distinct(validator_entries(#[trigger] props@[a].proofs@)) by {
                        if a != i {
                            assert(props@[a] == old_props[a]);
                        }
                    }
                    assert forall|a: int, b: int| 0 <= a < b < props@.len() implies proposal_entries(props@)[a].0 != proposal_entries(props@)[b].0 by {
                        assert(proposal_entries(props@)[a].0 == outer[a].0);
                        assert(proposal_entries(props@)[b].0 == outer[b].0);
                    }
                }
            },
            None => {
                let ghost hash_key = data_hash@;
                let ghost key = validator@;
                let mut proofs: Vec<(Vec<u8>, P)> = Vec::new();
                proofs.push((validator, proof));
                let prop = ProposalProofs { view, data_hash, proofs };
                let ghost new_inner = assoc_map(validator_entries(prop.proofs@));
                proof {
                    let single = validator_entries(prop.proofs@);
                    assert(single =~= Seq::<(Seq<u8>, P)>::empty().push((key, proof)));
                    lemma_assoc_push(Seq::<(Seq<u8>, P)>::empty(), key, proof);
                    assert(assoc_map(Seq::<(Seq<u8>, P)>::empty()) =~= Map::<Seq<u8>, P>::empty());
                    lemma_assoc_absent(outer, (view, hash_key));
                }
                props.push(prop);
                proof {
                    assert(proposal_entries(props@) =~= outer.push(((view, hash_key), new_inner)));
                    lemma_assoc_push(outer, (view, hash_key), new_inner);
                    assert(assoc_map(proposal_entries(props@)) =~= store_spec(assoc_map(outer), view, hash_key, key, proof));
                    assert forall|a: int| 0 <= a < props@.len() implies keys_distinct(validator_entries(#[trigger] props@[a].proofs@)) by {
                        if a < old_props.len() {
                            assert(props@[a] == old_props[a]);
                        }
                    }
                    assert forall|a: int, b: int| 0 <= a < b < props@.len() implies proposal_entries(props@)[a].0 != proposal_entries(props@)[b].0 by {
                        if b < old_props.len() {
                            assert(proposal_entries(props@)[a].0 == outer[a].0);
                            assert(proposal_entries(props@)[b].0 == outer[b].0);
                        } else {
                            assert(proposal_entries(props@)[a].0 == outer[a].0);
                        }
                    }
                }
            },
        }
        self.proposals = props;
    }

    /// The proof stored for `validator` under the proposal `(view, data_hash)`, if
    /// any (see `lookup_spec`).
    pub fn lookup(&self, view: u64, data_hash: &Vec<u8>, validator: &Vec<u8>) -> (r: Option<&P>)
        ensures
            match lookup_spec(self@, view, data_hash@, validator@) {
                Some(p) => r == Some(&p),
                None => r is None,
            },
    {
        proof {
            use_type_invariant(self);
        }
        let ghost outer = proposal_entries(self.proposals@);
        match find_proposal(&self.proposals, view, data_hash) {
            Some(i) => {
                let prop = &self.proposals[i];
                let ghost inner = validator_entries(prop.proofs@);
                proof {
                    lemma_assoc_get(outer, i as int);
                    assert(keys_distinct(inner));
                }
                match find_validator(&prop.proofs, validator) {
                    Some(j) => {
                        proof {
                            lemma_assoc_get(inner, j as int);
                        }
                        Some(&prop.proofs[j].1)
                    },
                    None => {
                        proof {
                            lemma_assoc_absent(inner, validator@);
                        }
                        None
                    },
                }
            },
            None => {
                proof {
                    lemma_assoc_absent(outer, (view, data_hash@));
                }
                None
            },
        }
    }

    /// The proposals held, each with its proofs: every proposal once, and within a
    /// proposal every validator once.
    pub fn proposals(&self) -> (r: &Vec<ProposalProofs<P>>)
        ensures
            store_wf(r@),
            assoc_map(proposal_entries(r@)) == self@,
    {
        proof {
            use_type_invariant(self);
        }
        &self.proposals
    }
}

/// A read gives back what the last write for the same proposal and validator
/// stored; a write for another proposal or validator leaves it unchanged.
pub proof fn lemma_lookup_after_store<P>(
    m: Map<(u64, Seq<u8>), Map<Seq<u8>, P>>,
    view: u64,
    data_hash: Seq<u8>,
    validator: Seq<u8>,
    proof: P,
    other_view: u64,
    other_hash: Seq<u8>,
    other_validator: Seq<u8>,
)
    ensures
        lookup_spec(store_spec(m, view, data_hash, validator, proof), view, data_hash, validator) == Some(proof),
        (other_view, other_hash, other_validator) != (view, data_hash, validator) ==> lookup_spec(
            store_spec(m, view, data_hash, validator, proof),
            other_view,
            other_hash,
            other_validator,
        ) == lookup_spec(m, other_view, other_hash, other_validator),
{
    let m2 = store_spec(m, view, data_hash, validator, proof);
    if (other_view, other_hash, other_validator) != (view, data_hash, validator) {
        if (other_view, other_hash) == (view, data_hash) {
            assert(other_validator != validator);
        }
    }
}

/// The store's contents after the stores `stores`, in order, starting from `m`;
/// each store is a view, a data hash, a validator key and a proof.
pub open spec fn apply_stores<P>(
    m: Map<(u64, Seq<u8>), Map<Seq<u8>, P>>,
    stores: Seq<(u64, Seq<u8>, Seq<u8>, P)>,
) -> Map<(u64, Seq<u8>), Map<Seq<u8>, P>>
    decreases stores.len(),
{
    if stores.len() == 0 {
        m
    } else {
        let s = stores.last();
        store_spec(apply_stores(m, stores.drop_last()), s.0, s.1, s.2, s.3)
    }
}

/// Stores for other keys leave a key's proof as it was.
pub proof fn lemma_lookup_unchanged_by_stores<P>(
    m: Map<(u64, Seq<u8>), Map<Seq<u8>, P>>,
    stores: Seq<(u64, Seq<u8>, Seq<u8>, P)>,
    view: u64,
    data_hash: Seq<u8>,
    validator: Seq<u8>,
)
    requires
        forall|k: int| 0 <= k < stores.len() ==> ((#[trigger] stores[k]).0, stores[k].1, stores[k].2) != (view, data_hash, validator),
    ensures
        lookup_spec(apply_stores(m, stores), view, data_hash, validator) == lookup_spec(m, view, data_hash, validator),
    decreases stores.len(),
{
    if stores.len() > 0 {
        let prev = stores.drop_last();
        assert forall|k: int| 0 <= k < prev.len() implies ((#[trigger] prev[k]).0, prev[k].1, prev[k].2) != (view, data_hash, validator) by {
            assert(prev[k] == stores[k]);
        }
        lemma_lookup_unchanged_by_stores(m, prev, view, data_hash, validator);
        let s = stores.last();
        assert(stores[stores.len() - 1] == s);
        lemma_lookup_after_store(apply_stores(m, prev), s.0, s.1, s.2, s.3, view, data_hash, validator);
    }
}

/// A read gives back the proof of the last store for its proposal and validator,
/// however many stores for other keys come after it; a key that was never stored
/// reads as nothing.
pub proof fn lemma_lookup_after_stores<P>(
    earlier: Seq<(u64, Seq<u8>, Seq<u8>, P)>,
    view: u64,
    data_hash: Seq<u8>,
    validator: Seq<u8>,
    proof: P,
    later: Seq<(u64, Seq<u8>, Seq<u8>, P)>,
)
    requires
        forall|k: int| 0 <= k < later.len() ==> ((#[trigger] later[k]).0, later[k].1, later[k].2) != (view, data_hash, validator),
    ensures
        lookup_spec(
            apply_stores(Map::empty(), earlier.push((view, data_hash, validator, proof)) + later),
            view,
            data_hash,
            validator,
        ) == Some(proof),
        (forall|k: int| 0 <= k < earlier.len() ==> ((#[trigger] earlier[k]).0, earlier[k].1, earlier[k].2) != (view, data_hash, validator))
            ==> lookup_spec(apply_stores(Map::empty(), earlier + later), view, data_hash, validator) is None,
{
    let with = earlier.push((view, data_hash, validator, proof));
    lemma_apply_stores_split(Map::empty(), with, later);
    lemma_lookup_after_store(apply_stores(Map::empty(), earlier), view, data_hash, validator, proof, view, data_hash, validator);
    assert(with.drop_last() =~= earlier);
    lemma_lookup_unchanged_by_stores(apply_stores(Map::empty(), with), later, view, data_hash, validator);
    if forall|k: int| 0 <= k < earlier.len() ==> ((#[trigger] earlier[k]).0, earlier[k].1, earlier[k].2) != (view, data_hash, validator) {
        let all = earlier + later;
        assert forall|k: int| 0 <= k < all.len() implies ((#[trigger] all[k]).0, all[k].1, all[k].2) != (view, data_hash, validator) by {
            if k < earlier.len() {
                assert(all[k] == earlier[k]);
            } else {
                assert(all[k] == later[k - earlier.len()]);
            }
        }
        lemma_lookup_unchanged_by_stores(Map::empty(), all, view, data_hash, validator);
    }
}

proof fn lemma_apply_stores_split<P>(
    m: Map<(u64, Seq<u8>), Map<Seq<u8>, P>>,
    a: Seq<(u64, Seq<u8>, Seq<u8>, P)>,
    b: Seq<(u64, Seq<u8>, Seq<u8>, P)>,
)
    ensures
        apply_stores(m, a + b) == apply_stores(apply_stores(m, a), b),
    decreases b.len(),
{
    if b.len() == 0 {
        assert(a + b =~= a);
    } else {
        lemma_apply_stores_split(m, a, b.drop_last());
        assert((a + b).drop_last() =~= a + b.drop_last());
        assert((a + b).last() == b.last());
    }
}

} // verus!
