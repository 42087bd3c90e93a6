//! Offers received from counterparties and awaiting the user's decision.
use vstd::prelude::*;

verus! {

/// An offered contract awaiting user action.
#[derive(Debug)]
pub struct OfferedContract {
    pub contract_id: Vec<u8>,
    pub counterparty: Vec<u8>,
    pub raw_offer: Vec<u8>,
    pub received_at: u64,
}

pub struct OfferModel {
    pub contract_id: Seq<u8>,
    pub counterparty: Seq<u8>,
    pub raw_offer: Seq<u8>,
    pub received_at: u64,
}

impl View for OfferedContract {
    type V = OfferModel;

    open spec fn view(&self) -> OfferModel {
        OfferModel {
            contract_id: self.contract_id@,
            counterparty: self.counterparty@,
            raw_offer: self.raw_offer@,
            received_at: self.received_at,
        }
    }
}

impl OfferedContract {
    /// A copy of the record.
    pub fn duplicate(&self) -> (r: OfferedContract)
        ensures
            r@ == self@,
    {
        OfferedContract {
            contract_id: self.contract_id.clone(),
            counterparty: self.counterparty.clone(),
            raw_offer: self.raw_offer.clone(),
            received_at: self.received_at,
        }
    }
}

/// Whether two byte strings are equal.
pub fn bytes_eq(a: &Vec<u8>, b: &Vec<u8>) -> (r: bool)
    ensures
        r == (a@ == b@),
{
    if a.len() != b.len() {
        return false;
    }
    let mut i: usize = 0;
    while i < a.len()
        invariant
            a@.len() == b@.len(),
            i <= a@.len(),
            forall|j: int| 0 <= j < i ==> a@[j] == b@[j],
        decreases a@.len() - i,
    {
        if a[i] != b[i] {
            return false;
        }
        i = i + 1;
    }
    assert(a@ =~= b@);
    true
}

/// Whether some record in `s` has contract id `id`.
pub open spec fn holds_id(s: Seq<OfferModel>, id: Seq<u8>) -> bool {
    exists|i: int| 0 <= i < s.len() && #[trigger] s[i].contract_id == id
}

/// Contract ids are unique and records stand in order of `received_at`.
pub open spec fn registry_wf(s: Seq<OfferModel>) -> bool {
    &&& forall|i: int, j: int|
        0 <= i < j < s.len() ==> #[trigger] s[i].contract_id != #[trigger] s[j].contract_id
    &&& forall|i: int, j: int|
        0 <= i <= j < s.len() ==> #[trigger] s[i].received_at <= #[trigger] s[j].received_at
}

/// Where a record received at `t` goes: after every record received at or before `t`,
/// before every one received later.
pub open spec fn is_insert_pos(s: Seq<OfferModel>, p: int, t: u64) -> bool {
    &&& 0 <= p <= s.len()
    &&& forall|i: int| 0 <= i < p ==> #[trigger] s[i].received_at <= t
    &&& forall|i: int| p <= i < s.len() ==> #[trigger] s[i].received_at > t
}

/// What `put` of `o` makes of `s`: unchanged where the contract id is held, else `o`
/// inserted in order of `received_at`.
pub open spec fn put_spec(s: Seq<OfferModel>, o: OfferModel, s2: Seq<OfferModel>) -> bool {
    &&& holds_id(s, o.contract_id) ==> s2 == s
    &&& !holds_id(s, o.contract_id) ==> exists|p: int|
        is_insert_pos(s, p, o.received_at) && s2 == s.insert(p, o)
}

/// The index of inbound offers, keyed by contract id.
pub struct OfferRegistry {
    entries: Vec<OfferedContract>,
}

impl View for OfferRegistry {
    type V = Seq<OfferModel>;

    closed spec fn view(&self) -> Seq<OfferModel> {
        self.entries@.map_values(|e: OfferedContract| e@)
    }
}

impl OfferRegistry {
    pub open spec fn wf(&self) -> bool {
        registry_wf(self@)
    }

    /// An empty registry.
    pub fn new() -> (r: OfferRegistry)
        ensures
            r.wf(),
            r@ == Seq::<OfferModel>::empty(),
    {
        let r = OfferRegistry { entries: Vec::new() };
        assert(r@ =~= Seq::<OfferModel>::empty());
        r
    }

    /// The number of offers held.
    pub fn len(&self) -> (r: usize)
        ensures
            r == self@.len(),
    {
        self.entries.len()
    }

    /// The index of the record with contract id `id`, if any.
    fn find(&self, id: &Vec<u8>) -> (r: Option<usize>)
        ensures
            match r {
                Some(i) => i < self@.len() && self@[i as int].contract_id == id@,
                None => !holds_id(self@, id@),
            },
    {
        let mut i: usize = 0;
        while i < self.entries.len()
            invariant
                i <= self@.len(),
                self@.len() == self.entries@.len(),
                forall|j: int| 0 <= j < i ==> #[trigger] self@[j].contract_id != id@,
            decreases self@.len() - i,
        {
            if bytes_eq(&self.entries[i].contract_id, id) {
                return Some(i);
            }
            i = i + 1;
        }
        None
    }

    /// A copy of the offer with contract id `id`; `None` if none is held.
    pub fn get(&self, id: &Vec<u8>) -> (r: Option<OfferedContract>)
        ensures
            r is None <==> !holds_id(self@, id@),
            r matches Some(o) ==> exists|i: int|
                0 <= i < self@.len() && self@[i] == o@ && o@.contract_id == id@,
    {
        match self.find(id) {
            Some(i) => Some(self.entries[i].duplicate()),
            None => None,
        }
    }

    /// Whether an offer with contract id `id` is held.
    pub fn contains(&self, id: &Vec<u8>) -> (r: bool)
        ensures
            r == holds_id(self@, id@),
    {
        self.find(id).is_some()
    }

    /// Records an offer. A second delivery of a contract id already held changes nothing
    /// and returns `false`; a new one is inserted in order of `received_at`, after the
    /// records received at the same time, and `true` is returned.
    pub fn put(&mut self, offer: OfferedContract) -> (r: bool)
        requires
            old(self).wf(),
        ensures
            final(self).wf(),
            r == !holds_id(old(self)@, offer@.contract_id),
            put_spec(old(self)@, offer@, final(self)@),
    {
        if self.find(&offer.contract_id).is_some() {
            return false;
        }
        let t = offer.received_at;
        let mut p: usize = 0;
        while p < self.entries.len() && self.entries[p].received_at <= t
            invariant
                p <= self@.len(),
                self@.len() == self.entries@.len(),
                registry_wf(self@),
                forall|i: int| 0 <= i < p ==> #[trigger] self@[i].received_at <= t,
            decreases self@.len() - p,
        {
            p = p + 1;
        }
        let ghost s = self@;
        let ghost o = offer@;
        assert(is_insert_pos(s, p as int, t)) by {
            assert forall|i: int| p <= i < s.len() implies #[trigger] s[i].received_at > t by {
                assert(s[p as int].received_at <= s[i].received_at);
            }
        }
        self.entries.insert(p, offer);
        assert(self@ =~= s.insert(p as int, o));
        let ghost n = self@;
        assert forall|i: int, j: int|
            0 <= i < j < n.len() implies #[trigger] n[i].contract_id != #[trigger] n[j].contract_id by {
            if i == p {
                assert(n[j] == s[j - 1]);
            } else if j == p {
                assert(n[i] == s[i]);
            } else {
                let i0 = if i < p { i } else { i - 1 };
                let j0 = if j < p { j } else { j - 1 };
                assert(n[i] == s[i0] && n[j] == s[j0]);
            }
        }
        assert forall|i: int, j: int|
            0 <= i <= j < n.len() implies #[trigger] n[i].received_at <= #[trigger] n[j].received_at by {
            let i0 = if i < p { i } else { i - 1 };
            let j0 = if j < p { j } else { j - 1 };
            if i != p && j != p {
                assert(n[i] == s[i0] && n[j] == s[j0]);
            } else if i == p && j != p {
                assert(n[j] == s[j0]);
            } else if j == p && i != p {
                assert(n[i] == s[i0]);
            }
        }
        true
    }

    /// A snapshot of the offers, in order of `received_at`.
    pub fn list(&self) -> (r: Vec<OfferedContract>)
        ensures
            r@.map_values(|e: OfferedContract| e@) == self@,
    {
        let mut r: Vec<OfferedContract> = Vec::new();
        let mut i: usize = 0;
        while i < self.entries.len()
            invariant
                i <= self@.len(),
                self@.len() == self.entries@.len(),
                r@.map_values(|e: OfferedContract| e@) == self@.take(i as int),
            decreases self@.len() - i,
        {
            let e = self.entries[i].duplicate();
            assert(e@ == self@[i as int]);
            let ghost before = r@.map_values(|e: OfferedContract| e@);
            r.push(e);
            assert(r@.map_values(|e: OfferedContract| e@) =~= before.push(e@));
            i = i + 1;
            assert(r@.map_values(|e: OfferedContract| e@) =~= self@.take(i as int));
        }
        assert(self@.take(i as int) =~= self@);
        r
    }

    /// Removes and returns the offer with contract id `id`; `None` if none is held.
    pub fn take(&mut self, id: &Vec<u8>) -> (r: Option<OfferedContract>)
        requires
            old(self).wf(),
        ensures
            final(self).wf(),
            r is None <==> !holds_id(old(self)@, id@),
            r is None ==> final(self)@ == old(self)@,
            r matches Some(o) ==> exists|i: int|
                0 <= i < old(self)@.len() && old(self)@[i] == o@ && o@.contract_id == id@
                    && final(self)@ == old(self)@.remove(i),
            !holds_id(final(self)@, id@),
    {
        match self.find(id) {
            None => None,
            Some(i) => {
                let ghost s = self@;
                let o = self.entries.remove(i);
                assert(self@ =~= s.remove(i as int));
                let ghost n = self@;
                assert forall|a: int, b: int|
                    0 <= a < b < n.len() implies #[trigger] n[a].contract_id != #[trigger] n[b].contract_id by {
                    let a0 = if a < i { a } else { a + 1 };
                    let b0 = if b < i { b } else { b + 1 };
                    assert(n[a] == s[a0] && n[b] == s[b0]);
                }
                assert forall|a: int, b: int|
                    0 <= a <= b < n.len() implies #[trigger] n[a].received_at <= #[trigger] n[b].received_at by {
                    let a0 = if a < i { a } else { a + 1 };
                    let b0 = if b < i { b } else { b + 1 };
                    assert(n[a] == s[a0] && n[b] == s[b0]);
                }
                assert forall|k: int| 0 <= k < n.len() implies #[trigger] n[k].contract_id != id@ by {
                    let k0 = if k < i { k } else { k + 1 };
                    assert(n[k] == s[k0]);
                    assert(s[i as int].contract_id == id@);
                }
                Some(o)
            },
        }
    }
}

/// Re-delivering an offer: after a second `put` of the same record the registry is
/// what the first `put` made it, and it holds exactly one record with that contract id.
pub proof fn lemma_put_idempotent(
    s: Seq<OfferModel>,
    o: OfferModel,
    s1: Seq<OfferModel>,
    s2: Seq<OfferModel>,
)
    requires
        registry_wf(s),
        put_spec(s, o, s1),
        registry_wf(s1),
        put_spec(s1, o, s2),
    ensures
        s2 == s1,
        holds_id(s1, o.contract_id),
        forall|i: int, j: int|
            0 <= i < s2.len() && 0 <= j < s2.len() && s2[i].contract_id == o.contract_id
                && s2[j].contract_id == o.contract_id ==> i == j,
{
    if !holds_id(s, o.contract_id) {
        let p = choose|p: int| is_insert_pos(s, p, o.received_at) && s1 == s.insert(p, o);
        assert(s1[p] == o);
    }
    assert forall|i: int, j: int|
        0 <= i < s2.len() && 0 <= j < s2.len() && s2[i].contract_id == o.contract_id
            && s2[j].contract_id == o.contract_id implies i == j by {
        if i < j {
            assert(s2[i].contract_id != s2[j].contract_id);
        } else if j < i {
            assert(s2[j].contract_id != s2[i].contract_id);
        }
    }
}

} // verus!
