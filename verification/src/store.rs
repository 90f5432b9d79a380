//! The in-memory key-value state store.
//!
//! Two tables back the ledger: [`Evenementen`], keyed by event id, and
//! [`Tickets`], keyed by the slot `(event id, holder id)`. Each is an
//! association list with pairwise-distinct keys, viewed as a `Map`.
//! Lookups and the prefix count are linear scans: the count is always
//! derived from ground truth, never from a cached counter.
//!
//! No method returns an error: a missing key yields `None` (never a
//! sentinel record), and an insert over a present key overwrites.

use vstd::prelude::*;
use crate::types::{Evenement, EvenementV, Ticket};
use crate::model::{issued, map_swap};

verus! {

broadcast use vstd::set::group_set_axioms, vstd::map::group_map_axioms, vstd::seq::group_seq_axioms;

/// The key of a ticket entry: the slot it is stored under.
pub open spec fn t_key(e: (u128, u128, Ticket)) -> (u128, u128) {
    (e.0, e.1)
}

/// The map an entry list denotes; a later entry under the same key wins
/// (the stores keep keys distinct, so the case never arises).
pub open spec fn t_map_of(s: Seq<(u128, u128, Ticket)>) -> Map<(u128, u128), Ticket>
    decreases s.len(),
{
    if s.len() == 0 {
        Map::empty()
    } else {
        t_map_of(s.drop_last()).insert(t_key(s.last()), s.last().2)
    }
}

/// Pairwise-distinct keys.
pub open spec fn t_unique(s: Seq<(u128, u128, Ticket)>) -> bool {
    forall|i: int, j: int| #![trigger s[i], s[j]]
        0 <= i < j < s.len() ==> t_key(s[i]) != t_key(s[j])
}

proof fn lemma_t_map_of_contains(s: Seq<(u128, u128, Ticket)>, k: (u128, u128))
    ensures
        t_map_of(s).dom().contains(k) <==> exists|i: int|
            0 <= i < s.len() && t_key(#[trigger] s[i]) == k,
    decreases s.len(),
{
    if s.len() == 0 {
    } else {
        let s0 = s.drop_last();
        lemma_t_map_of_contains(s0, k);
        if t_map_of(s).dom().contains(k) {
            if k == t_key(s.last()) {
                assert(t_key(s[s.len() - 1]) == k);
            } else {
                let i = choose|i: int| 0 <= i < s0.len() && t_key(#[trigger] s0[i]) == k;
                assert(t_key(s[i]) == k);
            }
        }
        if exists|i: int| 0 <= i < s.len() && t_key(#[trigger] s[i]) == k {
            let i = choose|i: int| 0 <= i < s.len() && t_key(#[trigger] s[i]) == k;
            if i < s.len() - 1 {
                assert(t_key(s0[i]) == k);
            }
        }
    }
}

proof fn lemma_t_map_of_index(s: Seq<(u128, u128, Ticket)>, i: int)
    requires
        t_unique(s),
        0 <= i < s.len(),
    ensures
        t_map_of(s).dom().contains(t_key(s[i])),
        t_map_of(s)[t_key(s[i])] == s[i].2,
    decreases s.len(),
{
    let s0 = s.drop_last();
    if i == s.len() - 1 {
    } else {
        lemma_t_map_of_index(s0, i);
        assert(t_key(s[i]) != t_key(s[s.len() - 1]));
    }
}

proof fn lemma_t_map_of_take_succ(s: Seq<(u128, u128, Ticket)>, i: int)
    requires
        0 <= i < s.len(),
    ensures
        t_map_of(s.take(i + 1)) == t_map_of(s.take(i)).insert(t_key(s[i]), s[i].2),
{
    assert(s.take(i + 1).drop_last() =~= s.take(i));
    assert(s.take(i + 1).last() == s[i]);
}

proof fn lemma_t_map_of_update_value(s: Seq<(u128, u128, Ticket)>, i: int, e: (u128, u128, Ticket))
    requires
        t_unique(s),
        0 <= i < s.len(),
        t_key(e) == t_key(s[i]),
    ensures
        t_unique(s.update(i, e)),
        t_map_of(s.update(i, e)) == t_map_of(s).insert(t_key(e), e.2),
    decreases s.len(),
{
    let s1 = s.update(i, e);
    let s0 = s.drop_last();
    if i == s.len() - 1 {
        assert(s1.drop_last() =~= s0);
        assert(t_map_of(s1) == t_map_of(s0).insert(t_key(e), e.2));
        assert(t_map_of(s0).insert(t_key(s.last()), s.last().2).insert(t_key(e), e.2) =~= t_map_of(
            s0,
        ).insert(t_key(e), e.2));
    } else {
        lemma_t_map_of_update_value(s0, i, e);
        assert(s1.drop_last() =~= s0.update(i, e));
        assert(s1.last() == s.last());
        assert(t_key(e) != t_key(s.last()));
        assert(t_map_of(s1) == t_map_of(s0).insert(t_key(e), e.2).insert(
            t_key(s.last()),
            s.last().2,
        ));
        assert(t_map_of(s0).insert(t_key(e), e.2).insert(t_key(s.last()), s.last().2) =~= t_map_of(
            s0,
        ).insert(t_key(s.last()), s.last().2).insert(t_key(e), e.2));
    }
}

proof fn lemma_t_map_of_update_key(s: Seq<(u128, u128, Ticket)>, i: int, e: (u128, u128, Ticket))
    requires
        t_unique(s),
        0 <= i < s.len(),
        forall|j: int| 0 <= j < s.len() ==> t_key(#[trigger] s[j]) != t_key(e),
    ensures
        t_unique(s.update(i, e)),
        t_map_of(s.update(i, e)) == t_map_of(s).remove(t_key(s[i])).insert(t_key(e), e.2),
    decreases s.len(),
{
    let s1 = s.update(i, e);
    let s0 = s.drop_last();
    lemma_t_map_of_contains(s0, t_key(s.last()));
    if i == s.len() - 1 {
        assert(s1.drop_last() =~= s0);
        assert(t_map_of(s1) == t_map_of(s0).insert(t_key(e), e.2));
        assert(!t_map_of(s0).dom().contains(t_key(s.last())));
        assert(t_map_of(s0).insert(t_key(s.last()), s.last().2).remove(t_key(s.last())).insert(
            t_key(e),
            e.2,
        ) =~= t_map_of(s0).insert(t_key(e), e.2));
    } else {
        assert(forall|j: int| 0 <= j < s0.len() ==> t_key(#[trigger] s0[j]) != t_key(e));
        lemma_t_map_of_update_key(s0, i, e);
        assert(s1.drop_last() =~= s0.update(i, e));
        assert(s1.last() == s.last());
        assert(t_key(e) != t_key(s.last()));
        assert(t_key(s[i]) != t_key(s.last()));
        assert(t_map_of(s1) == t_map_of(s0).remove(t_key(s[i])).insert(t_key(e), e.2).insert(
            t_key(s.last()),
            s.last().2,
        ));
        assert(t_map_of(s0).remove(t_key(s[i])).insert(t_key(e), e.2).insert(
            t_key(s.last()),
            s.last().2,
        ) =~= t_map_of(s0).insert(t_key(s.last()), s.last().2).remove(t_key(s[i])).insert(
            t_key(e),
            e.2,
        ));
    }
}

/// The tickets table, keyed by `(event id, holder id)`.
pub struct Tickets {
    entries: Vec<(u128, u128, Ticket)>,
}

impl View for Tickets {
    type V = Map<(u128, u128), Ticket>;

    closed spec fn view(&self) -> Map<(u128, u128), Ticket> {
        t_map_of(self.entries@)
    }
}

impl Tickets {
    /// Representation invariant: keys are pairwise distinct. Every
    /// method preserves it; `new` establishes it.
    pub closed spec fn inv(&self) -> bool {
        t_unique(self.entries@)
    }

    /// The empty table.
    pub fn new() -> (r: Tickets)
        ensures
            r.inv(),
            r@ == Map::<(u128, u128), Ticket>::empty(),
    {
        Tickets { entries: Vec::new() }
    }

    fn find(&self, evenement_id: u128, klant_id: u128) -> (r: Option<usize>)
        ensures
            match r {
                Some(i) => i < self.entries@.len() && self.entries@[i as int].0 == evenement_id
                    && self.entries@[i as int].1 == klant_id,
                None => forall|i: int|
                    0 <= i < self.entries@.len() ==> t_key(#[trigger] self.entries@[i]) != (
                    evenement_id,
                    klant_id,
                    ),
            },
    {
        let mut i: usize = 0;
        while i < self.entries.len()
            invariant
                i <= self.entries@.len(),
                forall|j: int|
                    0 <= j < i ==> t_key(#[trigger] self.entries@[j]) != (evenement_id, klant_id),
            decreases self.entries@.len() - i,
        {
            if self.entries[i].0 == evenement_id && self.entries[i].1 == klant_id {
                return Some(i);
            }
            i = i + 1;
        }
        None
    }

    /// Point existence check.
    pub fn contains(&self, evenement_id: u128, klant_id: u128) -> (r: bool)
        requires
            self.inv(),
        ensures
            r == self@.dom().contains((evenement_id, klant_id)),
    {
        proof {
            lemma_t_map_of_contains(self.entries@, (evenement_id, klant_id));
        }
        match self.find(evenement_id, klant_id) {
            Some(i) => {
                proof {
                    assert(t_key(self.entries@[i as int]) == (evenement_id, klant_id));
                }
                true
            },
            None => false,
        }
    }

    /// Point lookup; a missing slot yields `None`.
    pub fn get(&self, evenement_id: u128, klant_id: u128) -> (r: Option<Ticket>)
        requires
            self.inv(),
        ensures
            match r {
                Some(t) => self@.dom().contains((evenement_id, klant_id)) && t == self@[(
                    evenement_id,
                    klant_id,
                )],
                None => !self@.dom().contains((evenement_id, klant_id)),
            },
    {
        proof {
            lemma_t_map_of_contains(self.entries@, (evenement_id, klant_id));
        }
        match self.find(evenement_id, klant_id) {
            Some(i) => {
                proof {
                    lemma_t_map_of_index(self.entries@, i as int);
                    assert(t_key(self.entries@[i as int]) == (evenement_id, klant_id));
                }
                Some(self.entries[i].2)
            },
            None => None,
        }
    }

    /// Point lookup with a caller-specified default for a vacant slot.
    pub fn get_or_default(&self, evenement_id: u128, klant_id: u128, default: Ticket) -> (r: Ticket)
        requires
            self.inv(),
        ensures
            r == if self@.dom().contains((evenement_id, klant_id)) {
                self@[(evenement_id, klant_id)]
            } else {
                default
            },
    {
        match self.get(evenement_id, klant_id) {
            Some(t) => t,
            None => default,
        }
    }

    /// Insert or overwrite, no existence check.
    pub fn put(&mut self, evenement_id: u128, klant_id: u128, t: Ticket)
        requires
            old(self).inv(),
        ensures
            final(self).inv(),
            final(self)@ == old(self)@.insert((evenement_id, klant_id), t),
    {
        match self.find(evenement_id, klant_id) {
            Some(i) => {
                proof {
                    lemma_t_map_of_update_value(
                        self.entries@,
                        i as int,
                        (evenement_id, klant_id, t),
                    );
                }
                self.entries.set(i, (evenement_id, klant_id, t));
            },
            None => {
                proof {
                    let s = self.entries@;
                    let s1 = s.push((evenement_id, klant_id, t));
                    assert(s1.drop_last() =~= s);
                    assert forall|i: int, j: int| 0 <= i < j < s1.len() implies t_key(
                        #[trigger] s1[i],
                    ) != t_key(#[trigger] s1[j]) by {
                        if j < s1.len() - 1 {
                            assert(s1[i] == s[i] && s1[j] == s[j]);
                        } else {
                            assert(s1[i] == s[i]);
                            assert(t_key(s[i]) != (evenement_id, klant_id));
                        }
                    }
                }
                self.entries.push((evenement_id, klant_id, t));
            },
        }
    }

    /// Atomically exchanges the values stored at two slots, absence
    /// included: if only one slot held a value, it moves to the other
    /// slot and the first is left vacant.
    pub fn swap(&mut self, ea: u128, ka: u128, eb: u128, kb: u128)
        requires
            old(self).inv(),
        ensures
            final(self).inv(),
            final(self)@ == map_swap(old(self)@, (ea, ka), (eb, kb)),
    {
        let ghost a = (ea, ka);
        let ghost b = (eb, kb);
        let ghost m0 = self@;
        if ea == eb && ka == kb {
            proof {
                lemma_t_map_of_contains(self.entries@, a);
                assert(map_swap(m0, a, b) =~= m0);
            }
            return ;
        }
        let ia = self.find(ea, ka);
        let ib = self.find(eb, kb);
        proof {
            lemma_t_map_of_contains(self.entries@, a);
            lemma_t_map_of_contains(self.entries@, b);
        }
        match (ia, ib) {
            (Some(i), Some(j)) => {
                let va = self.entries[i].2;
                let vb = self.entries[j].2;
                proof {
                    let s = self.entries@;
                    assert(t_key(s[i as int]) == a && t_key(s[j as int]) == b);
                    assert(i != j);
                    lemma_t_map_of_index(s, i as int);
                    lemma_t_map_of_index(s, j as int);
                    lemma_t_map_of_update_value(s, i as int, (ea, ka, vb));
                }
                self.entries.set(i, (ea, ka, vb));
                proof {
                    let s1 = self.entries@;
                    assert(s1[j as int] == old(self).entries@[j as int]);
                    lemma_t_map_of_update_value(s1, j as int, (eb, kb, va));
                }
                self.entries.set(j, (eb, kb, va));
                proof {
                    assert(self@ == m0.insert(a, vb).insert(b, va));
                    assert(m0.insert(a, vb).insert(b, va) =~= map_swap(m0, a, b));
                }
            },
            (Some(i), None) => {
                let va = self.entries[i].2;
                proof {
                    let s = self.entries@;
                    assert(t_key(s[i as int]) == a);
                    lemma_t_map_of_index(s, i as int);
                    lemma_t_map_of_update_key(s, i as int, (eb, kb, va));
                }
                self.entries.set(i, (eb, kb, va));
                proof {
                    assert(self@ == m0.remove(a).insert(b, va));
                    assert(m0.remove(a).insert(b, va) =~= map_swap(m0, a, b));
                }
            },
            (None, Some(j)) => {
                let vb = self.entries[j].2;
                proof {
                    let s = self.entries@;
                    assert(t_key(s[j as int]) == b);
                    lemma_t_map_of_index(s, j as int);
                    lemma_t_map_of_update_key(s, j as int, (ea, ka, vb));
                }
                self.entries.set(j, (ea, ka, vb));
                proof {
                    assert(self@ == m0.remove(b).insert(a, vb));
                    assert(m0.remove(b).insert(a, vb) =~= map_swap(m0, a, b));
                }
            },
            (None, None) => {
                proof {
                    assert(map_swap(m0, a, b) =~= m0);
                }
            },
        }
    }

    /// The keys under the event's prefix — the issued slots, each
    /// exactly once. The order is store-defined; callers may rely on the
    /// set alone.
    pub fn keys_with_prefix(&self, evenement_id: u128) -> (r: Vec<(u128, u128)>)
        requires
            self.inv(),
        ensures
            r@.to_set() == issued(self@, evenement_id),
            r@.no_duplicates(),
    {
        let ghost s = self.entries@;
        let mut uit: Vec<(u128, u128)> = Vec::new();
        let mut i: usize = 0;
        proof {
            assert(s.take(0) =~= Seq::<(u128, u128, Ticket)>::empty());
            assert(issued(t_map_of(s.take(0)), evenement_id) =~= Set::<(u128, u128)>::empty());
            assert(uit@.to_set() =~= Set::<(u128, u128)>::empty());
        }
        while i < self.entries.len()
            invariant
                s == self.entries@,
                self.inv(),
                i <= s.len(),
                uit@.to_set() == issued(t_map_of(s.take(i as int)), evenement_id),
                uit@.no_duplicates(),
            decreases s.len() - i,
        {
            let ghost prev = t_map_of(s.take(i as int));
            let ghost key = t_key(s[i as int]);
            proof {
                lemma_t_map_of_take_succ(s, i as int);
                lemma_t_map_of_contains(s.take(i as int), key);
                assert(forall|j: int|
                    0 <= j < i ==> t_key(#[trigger] s.take(i as int)[j]) == t_key(s[j]));
                assert(!prev.dom().contains(key));
                if s[i as int].0 == evenement_id {
                    assert(!uit@.to_set().contains(key));
                    assert(!uit@.contains(key));
                    assert forall|a: (u128, u128)| #[trigger]
                        uit@.push(key).contains(a) <==> (uit@.contains(a) || a == key) by {
                        vstd::seq_lib::lemma_seq_contains_after_push(uit@, key, a);
                    }
                    assert(uit@.push(key).to_set() =~= uit@.to_set().insert(key));
                    assert(issued(t_map_of(s.take(i as int + 1)), evenement_id) =~= issued(
                        prev,
                        evenement_id,
                    ).insert(key));
                } else {
                    assert(issued(t_map_of(s.take(i as int + 1)), evenement_id) =~= issued(
                        prev,
                        evenement_id,
                    ));
                }
            }
            if self.entries[i].0 == evenement_id {
                uit.push((self.entries[i].0, self.entries[i].1));
            }
            i = i + 1;
        }
        proof {
            assert(s.take(s.len() as int) =~= s);
        }
        uit
    }

    /// The number of slots issued under the event's prefix: an O(n) scan
    /// over all ticket keys, counting matches.
    pub fn count_with_prefix(&self, evenement_id: u128) -> (r: usize)
        requires
            self.inv(),
        ensures
            r == issued(self@, evenement_id).len(),
    {
        let ghost s = self.entries@;
        let mut n: usize = 0;
        let mut i: usize = 0;
        proof {
            assert(s.take(0) =~= Seq::<(u128, u128, Ticket)>::empty());
            assert(issued(t_map_of(s.take(0)), evenement_id) =~= Set::<(u128, u128)>::empty());
        }
        while i < self.entries.len()
            invariant
                s == self.entries@,
                self.inv(),
                i <= s.len(),
                n <= i,
                issued(t_map_of(s.take(i as int)), evenement_id).finite(),
                n == issued(t_map_of(s.take(i as int)), evenement_id).len(),
            decreases s.len() - i,
        {
            let ghost prev = t_map_of(s.take(i as int));
            let ghost key = t_key(s[i as int]);
            proof {
                lemma_t_map_of_take_succ(s, i as int);
                lemma_t_map_of_contains(s.take(i as int), key);
                assert(forall|j: int|
                    0 <= j < i ==> t_key(#[trigger] s.take(i as int)[j]) == t_key(s[j]));
                assert(!prev.dom().contains(key));
                if s[i as int].0 == evenement_id {
                    assert(issued(t_map_of(s.take(i as int + 1)), evenement_id) =~= issued(
                        prev,
                        evenement_id,
                    ).insert(key));
                } else {
                    assert(issued(t_map_of(s.take(i as int + 1)), evenement_id) =~= issued(
                        prev,
                        evenement_id,
                    ));
                }
            }
            if self.entries[i].0 == evenement_id {
                n = n + 1;
            }
            i = i + 1;
        }
        proof {
            assert(s.take(s.len() as int) =~= s);
        }
        n
    }
}

/// The map an event entry list denotes, valued in record views.
pub open spec fn e_map_of(s: Seq<(u128, Evenement)>) -> Map<u128, EvenementV>
    decreases s.len(),
{
    if s.len() == 0 {
        Map::empty()
    } else {
        e_map_of(s.drop_last()).insert(s.last().0, s.last().1@)
    }
}

/// Pairwise-distinct event ids.
pub open spec fn e_unique(s: Seq<(u128, Evenement)>) -> bool {
    forall|i: int, j: int| #![trigger s[i], s[j]] 0 <= i < j < s.len() ==> s[i].0 != s[j].0
}

proof fn lemma_e_map_of_contains(s: Seq<(u128, Evenement)>, k: u128)
    ensures
        e_map_of(s).dom().contains(k) <==> exists|i: int|
            0 <= i < s.len() && (#[trigger] s[i]).0 == k,
    decreases s.len(),
{
    if s.len() == 0 {
    } else {
        let s0 = s.drop_last();
        lemma_e_map_of_contains(s0, k);
        if e_map_of(s).dom().contains(k) {
            if k == s.last().0 {
                assert((s[s.len() - 1]).0 == k);
            } else {
                let i = choose|i: int| 0 <= i < s0.len() && (#[trigger] s0[i]).0 == k;
                assert(s[i].0 == k);
            }
        }
        if exists|i: int| 0 <= i < s.len() && (#[trigger] s[i]).0 == k {
            let i = choose|i: int| 0 <= i < s.len() && (#[trigger] s[i]).0 == k;
            if i < s.len() - 1 {
                assert(s0[i].0 == k);
            }
        }
    }
}

proof fn lemma_e_map_of_index(s: Seq<(u128, Evenement)>, i: int)
    requires
        e_unique(s),
        0 <= i < s.len(),
    ensures
        e_map_of(s).dom().contains(s[i].0),
        e_map_of(s)[s[i].0] == s[i].1@,
    decreases s.len(),
{
    let s0 = s.drop_last();
    if i == s.len() - 1 {
    } else {
        lemma_e_map_of_index(s0, i);
        assert(s[i].0 != s[s.len() - 1].0);
    }
}

proof fn lemma_e_map_of_update_value(s: Seq<(u128, Evenement)>, i: int, e: (u128, Evenement))
    requires
        e_unique(s),
        0 <= i < s.len(),
        e.0 == s[i].0,
    ensures
        e_unique(s.update(i, e)),
        e_map_of(s.update(i, e)) == e_map_of(s).insert(e.0, e.1@),
    decreases s.len(),
{
    let s1 = s.update(i, e);
    let s0 = s.drop_last();
    if i == s.len() - 1 {
        assert(s1.drop_last() =~= s0);
        assert(e_map_of(s1) == e_map_of(s0).insert(e.0, e.1@));
        assert(e_map_of(s0).insert(s.last().0, s.last().1@).insert(e.0, e.1@) =~= e_map_of(
            s0,
        ).insert(e.0, e.1@));
    } else {
        lemma_e_map_of_update_value(s0, i, e);
        assert(s1.drop_last() =~= s0.update(i, e));
        assert(s1.last() == s.last());
        assert(e.0 != s.last().0);
        assert(e_map_of(s1) == e_map_of(s0).insert(e.0, e.1@).insert(s.last().0, s.last().1@));
        assert(e_map_of(s0).insert(e.0, e.1@).insert(s.last().0, s.last().1@) =~= e_map_of(
            s0,
        ).insert(s.last().0, s.last().1@).insert(e.0, e.1@));
    }
}

/// The events table, keyed by event id.
pub struct Evenementen {
    entries: Vec<(u128, Evenement)>,
}

impl View for Evenementen {
    type V = Map<u128, EvenementV>;

    closed spec fn view(&self) -> Map<u128, EvenementV> {
        e_map_of(self.entries@)
    }
}

impl Evenementen {
    /// Representation invariant: ids are pairwise distinct. Every method
    /// preserves it; `new` establishes it.
    pub closed spec fn inv(&self) -> bool {
        e_unique(self.entries@)
    }

    /// The empty table.
    pub fn new() -> (r: Evenementen)
        ensures
            r.inv(),
            r@ == Map::<u128, EvenementV>::empty(),
    {
        Evenementen { entries: Vec::new() }
    }

    fn find(&self, id: u128) -> (r: Option<usize>)
        ensures
            match r {
                Some(i) => i < self.entries@.len() && self.entries@[i as int].0 == id,
                None => forall|i: int|
                    0 <= i < self.entries@.len() ==> (#[trigger] self.entries@[i]).0 != id,
            },
    {
        let mut i: usize = 0;
        while i < self.entries.len()
            invariant
                i <= self.entries@.len(),
                forall|j: int| 0 <= j < i ==> (#[trigger] self.entries@[j]).0 != id,
            decreases self.entries@.len() - i,
        {
            if self.entries[i].0 == id {
                return Some(i);
            }
            i = i + 1;
        }
        None
    }

    /// Point existence check.
    pub fn contains(&self, id: u128) -> (r: bool)
        requires
            self.inv(),
        ensures
            r == self@.dom().contains(id),
    {
        proof {
            lemma_e_map_of_contains(self.entries@, id);
        }
        match self.find(id) {
            Some(i) => {
                proof {
                    assert(self.entries@[i as int].0 == id);
                }
                true
            },
            None => false,
        }
    }

    /// Point lookup; a missing id yields `None`, never a sentinel record.
    pub fn get(&self, id: u128) -> (r: Option<&Evenement>)
        requires
            self.inv(),
        ensures
            match r {
                Some(ev) => self@.dom().contains(id) && ev@ == self@[id],
                None => !self@.dom().contains(id),
            },
    {
        proof {
            lemma_e_map_of_contains(self.entries@, id);
        }
        match self.find(id) {
            Some(i) => {
                proof {
                    lemma_e_map_of_index(self.entries@, i as int);
                }
                Some(&self.entries[i].1)
            },
            None => None,
        }
    }

    /// Insert or overwrite, no existence check.
    pub fn put(&mut self, id: u128, ev: Evenement)
        requires
            old(self).inv(),
        ensures
            final(self).inv(),
            final(self)@ == old(self)@.insert(id, ev@),
    {
        match self.find(id) {
            Some(i) => {
                proof {
                    lemma_e_map_of_update_value(self.entries@, i as int, (id, ev));
                }
                self.entries.set(i, (id, ev));
            },
            None => {
                proof {
                    let s = self.entries@;
                    let s1 = s.push((id, ev));
                    assert(s1.drop_last() =~= s);
                    assert forall|i: int, j: int| 0 <= i < j < s1.len() implies (
                    #[trigger] s1[i]).0 != (#[trigger] s1[j]).0 by {
                        if j < s1.len() - 1 {
                            assert(s1[i] == s[i] && s1[j] == s[j]);
                        } else {
                            assert(s1[i] == s[i]);
                            assert(s[i].0 != id);
                        }
                    }
                }
                self.entries.push((id, ev));
            },
        }
    }
}

} // verus!
