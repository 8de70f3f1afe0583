//! The connection registry: a mapping from connection identifier to that
//! connection's outbound delivery channel. One exclusive owner mutates it
//! (callers guard it with a single lock), so a broadcast snapshot sees
//! exactly the set of connections live at snapshot time. Its model is a
//! `Map` from identifier to channel.

use vstd::prelude::*;

verus! {

/// Registering an identifier that is already present is a conflict; it
/// should not occur under the identifier-generation policy, but is
/// signalled rather than overwriting.
#[derive(Debug, PartialEq, Eq, Structural)]
pub enum RegistryError {
    DuplicateId,
}

/// The map an association list denotes: later entries win, though the
/// registry keeps keys unique so order never matters.
pub open spec fn map_of<C>(s: Seq<(u128, C)>) -> Map<u128, C>
    decreases s.len(),
{
    if s.len() == 0 {
        Map::empty()
    } else {
        map_of(s.drop_last()).insert(s.last().0, s.last().1)
    }
}

pub open spec fn keys_unique<C>(s: Seq<(u128, C)>) -> bool {
    forall|i: int, j: int| 0 <= i < j < s.len() ==> (#[trigger] s[i]).0 != (#[trigger] s[j]).0
}

/// With unique keys, the association list and its map agree entry for
/// entry, and the map has exactly one entry per list element.
proof fn lemma_map_of_props<C>(s: Seq<(u128, C)>)
    requires
        keys_unique(s),
    ensures
        map_of(s).dom().finite(),
        map_of(s).dom().len() == s.len(),
        forall|k: u128| #[trigger] map_of(s).dom().contains(k)
            <==> exists|i: int| 0 <= i < s.len() && (#[trigger] s[i]).0 == k,
        forall|i: int| 0 <= i < s.len() ==> map_of(s)[(#[trigger] s[i]).0] == s[i].1,
    decreases s.len(),
{
    if s.len() == 0 {
        assert(map_of(s).dom() =~= Set::<u128>::empty());
    } else {
        let s0 = s.drop_last();
        let p = s.last();
        assert(forall|i: int| 0 <= i < s0.len() ==> #[trigger] s0[i] == s[i]);
        assert(forall|i: int| 0 <= i < s0.len() ==> s0[i] == #[trigger] s[i]);
        lemma_map_of_props(s0);
        assert(!map_of(s0).dom().contains(p.0));
        assert(map_of(s).dom() =~= map_of(s0).dom().insert(p.0));
        assert forall|k: u128| #[trigger] map_of(s).dom().contains(k)
            implies exists|i: int| 0 <= i < s.len() && (#[trigger] s[i]).0 == k by {
            if k == p.0 {
                assert(s[s.len() - 1].0 == k);
            } else {
                assert(map_of(s0).dom().contains(k));
                let w = choose|i: int| 0 <= i < s0.len() && (#[trigger] s0[i]).0 == k;
                assert(s[w].0 == k);
            }
        };
        assert forall|k: u128| (exists|i: int| 0 <= i < s.len() && (#[trigger] s[i]).0 == k)
            implies map_of(s).dom().contains(k) by {
            let w = choose|i: int| 0 <= i < s.len() && (#[trigger] s[i]).0 == k;
            if w < s.len() - 1 {
                assert(s0[w].0 == k);
                assert(map_of(s0).dom().contains(k));
            }
        };
        assert forall|i: int| 0 <= i < s.len() - 1 implies map_of(s)[(#[trigger] s[i]).0]
            == s[i].1 by {
            assert(s[i] == s0[i]);
            assert(s[i].0 != p.0);
            assert(map_of(s0)[s0[i].0] == s0[i].1);
        };
    }
}

/// The connection registry. Invariant: at most one live entry per
/// connection identifier.
pub struct Registry<C> {
    entries: Vec<(u128, C)>,
}

impl<C> View for Registry<C> {
    type V = Map<u128, C>;

    closed spec fn view(&self) -> Map<u128, C> {
        map_of(self.entries@)
    }
}

impl<C: Copy> Registry<C> {
    /// Well-formedness: one entry per identifier.
    pub closed spec fn wf(self) -> bool {
        keys_unique(self.entries@)
    }

    pub fn new() -> (r: Self)
        ensures
            r.wf(),
            r@ == Map::<u128, C>::empty(),
    {
        Registry { entries: Vec::new() }
    }

    /// How many connections are registered.
    pub fn len(&self) -> (n: usize)
        requires
            self.wf(),
        ensures
            n == self@.dom().len(),
    {
        proof {
            lemma_map_of_props(self.entries@);
        }
        self.entries.len()
    }

    /// Whether `id` is registered.
    pub fn contains(&self, id: u128) -> (b: bool)
        requires
            self.wf(),
        ensures
            b == self@.dom().contains(id),
    {
        proof {
            lemma_map_of_props(self.entries@);
        }
        let n = self.entries.len();
        let mut i: usize = 0;
        while i < n
            invariant
                i <= n,
                self.wf(),
                n == self.entries@.len(),
                forall|j: int| 0 <= j < i ==> (#[trigger] self.entries@[j]).0 != id,
            decreases n - i,
        {
            if self.entries[i].0 == id {
                proof {
                    lemma_map_of_props(self.entries@);
                    assert((self.entries@[i as int]).0 == id);
                }
                return true;
            }
            i = i + 1;
        }
        proof {
            lemma_map_of_props(self.entries@);
        }
        false
    }

    /// The channel registered for `id`, if any.
    pub fn get(&self, id: u128) -> (r: Option<C>)
        requires
            self.wf(),
        ensures
            r matches Some(c) ==> self@.dom().contains(id) && self@[id] == c,
            r is None ==> !self@.dom().contains(id),
    {
        proof {
            lemma_map_of_props(self.entries@);
        }
        let n = self.entries.len();
        let mut i: usize = 0;
        while i < n
            invariant
                i <= n,
                self.wf(),
                n == self.entries@.len(),
                forall|j: int| 0 <= j < i ==> (#[trigger] self.entries@[j]).0 != id,
            decreases n - i,
        {
            if self.entries[i].0 == id {
                proof {
                    lemma_map_of_props(self.entries@);
                    assert((self.entries@[i as int]).0 == id);
                }
                return Some(self.entries[i].1);
            }
            i = i + 1;
        }
        proof {
            lemma_map_of_props(self.entries@);
        }
        None
    }

    /// Inserts a new entry; a conflict is signalled, never overwritten.
    /// Succeeds exactly on identifiers not yet present.
    pub fn register(&mut self, id: u128, channel: C) -> (r: Result<(), RegistryError>)
        requires
            old(self).wf(),
        ensures
            final(self).wf(),
            r is Ok <==> !old(self)@.dom().contains(id),
            r is Ok ==> final(self)@ == old(self)@.insert(id, channel),
            r is Err ==> *final(self) == *old(self)
                && r == Err::<(), RegistryError>(RegistryError::DuplicateId),
    {
        if self.contains(id) {
            return Err(RegistryError::DuplicateId);
        }
        proof {
            lemma_map_of_props(self.entries@);
        }
        let ghost s = self.entries@;
        self.entries.push((id, channel));
        proof {
            assert(s.push((id, channel)).drop_last() =~= s);
            assert(forall|j: int| 0 <= j < s.len() ==> #[trigger] s.push((id, channel))[j] == s[j]);
        }
        Ok(())
    }

    /// Inserts or replaces: the entry for `id` becomes `channel`; every
    /// other entry is untouched.
    pub fn update(&mut self, id: u128, channel: C)
        requires
            old(self).wf(),
        ensures
            final(self).wf(),
            final(self)@ == old(self)@.insert(id, channel),
    {
        let _ = self.unregister(id);
        let _ = self.register(id, channel);
        proof {
            assert(old(self)@.remove(id).insert(id, channel) =~= old(self)@.insert(id, channel));
        }
    }

    /// Removes the entry for `id` if present and nothing else; a no-op
    /// otherwise, so cleanup can run unconditionally. Returns whether an
    /// entry was removed.
    pub fn unregister(&mut self, id: u128) -> (was: bool)
        requires
            old(self).wf(),
        ensures
            final(self).wf(),
            final(self)@ == old(self)@.remove(id),
            was == old(self)@.dom().contains(id),
    {
        let ghost s = self.entries@;
        let n = self.entries.len();
        let mut out: Vec<(u128, C)> = Vec::new();
        let mut found = false;
        let mut i: usize = 0;
        while i < n
            invariant
                i <= n,
                n == s.len(),
                self.entries@ == s,
                keys_unique(s),
                keys_unique(out@),
                map_of(out@) == map_of(s.take(i as int)).remove(id),
                found <==> map_of(s.take(i as int)).dom().contains(id),
            decreases n - i,
        {
            let ghost t = s.take(i as int);
            let ghost t2 = s.take(i + 1);
            proof {
                assert(forall|j: int| 0 <= j < t.len() ==> #[trigger] t[j] == s[j]);
                assert(forall|j: int| 0 <= j < t2.len() ==> #[trigger] t2[j] == s[j]);
                assert(t2.drop_last() =~= t);
                assert(t2.last() == s[i as int]);
                lemma_map_of_props(t);
                lemma_map_of_props(t2);
            }
            let p = self.entries[i];
            if p.0 == id {
                found = true;
                proof {
                    assert(map_of(t2) == map_of(t).insert(id, p.1));
                    assert(map_of(t2).remove(id) =~= map_of(t).remove(id));
                    assert(map_of(t2).dom().contains(id));
                }
            } else {
                let ghost o = out@;
                out.push(p);
                proof {
                    assert(o.push(p).drop_last() =~= o);
                    assert(forall|j: int| 0 <= j < o.len() ==> #[trigger] o.push(p)[j] == o[j]);
                    lemma_map_of_props(o);
                    assert(!map_of(o).dom().contains(p.0));
                    assert(map_of(out@) == map_of(o).insert(p.0, p.1));
                    assert(map_of(t2) == map_of(t).insert(p.0, p.1));
                    assert(map_of(t2).remove(id) =~= map_of(t).remove(id).insert(p.0, p.1));
                }
            }
            i = i + 1;
        }
        proof {
            assert(s.take(n as int) =~= s);
        }
        self.entries = out;
        found
    }

    /// The current set of `(identifier, channel)` pairs, copied under the
    /// caller's lock so delivery happens outside it: exactly one pair per
    /// registered connection.
    pub fn snapshot(&self) -> (r: Vec<(u128, C)>)
        requires
            self.wf(),
        ensures
            r@.len() == self@.dom().len(),
            forall|i: int| 0 <= i < r@.len()
                ==> self@.contains_pair((#[trigger] r@[i]).0, r@[i].1),
            keys_unique(r@),
            forall|k: u128| #[trigger] self@.dom().contains(k)
                ==> exists|i: int| 0 <= i < r@.len() && (#[trigger] r@[i]).0 == k,
    {
        proof {
            lemma_map_of_props(self.entries@);
        }
        let n = self.entries.len();
        let mut r: Vec<(u128, C)> = Vec::new();
        let mut i: usize = 0;
        while i < n
            invariant
                i <= n,
                n == self.entries@.len(),
                r@ == self.entries@.take(i as int),
            decreases n - i,
        {
            r.push(self.entries[i]);
            i = i + 1;
            proof {
                assert(r@ =~= self.entries@.take(i as int));
            }
        }
        proof {
            assert(self.entries@.take(n as int) =~= self.entries@);
        }
        r
    }
}

/// One operation on the registry, as the gateway performs them: a
/// connection's read loop starts with a registration and ends with the
/// unregistration of the same identifier.
pub enum RegistryOp<C> {
    Register(u128, C),
    Unregister(u128),
}

/// The identifiers of the connections whose read loop has started and not
/// yet terminated after this history of operations.
pub open spec fn live_ids<C>(ops: Seq<RegistryOp<C>>) -> Set<u128>
    decreases ops.len(),
{
    if ops.len() == 0 {
        Set::empty()
    } else {
        match ops.last() {
            RegistryOp::Register(id, _) => live_ids(ops.drop_last()).insert(id),
            RegistryOp::Unregister(id) => live_ids(ops.drop_last()).remove(id),
        }
    }
}

/// The registry contents after this history of operations, as the
/// contracts of `register` and `unregister` describe them.
pub open spec fn apply_ops<C>(ops: Seq<RegistryOp<C>>) -> Map<u128, C>
    decreases ops.len(),
{
    if ops.len() == 0 {
        Map::empty()
    } else {
        match ops.last() {
            RegistryOp::Register(id, ch) => apply_ops(ops.drop_last()).insert(id, ch),
            RegistryOp::Unregister(id) => apply_ops(ops.drop_last()).remove(id),
        }
    }
}

/// A history is admissible when every registration uses a fresh
/// identifier, which the identifier-generation policy provides and
/// `register` checks.
pub open spec fn ops_admissible<C>(ops: Seq<RegistryOp<C>>) -> bool
    decreases ops.len(),
{
    if ops.len() == 0 {
        true
    } else {
        ops_admissible(ops.drop_last()) && match ops.last() {
            RegistryOp::Register(id, _) => !live_ids(ops.drop_last()).contains(id),
            RegistryOp::Unregister(_) => true,
        }
    }
}

/// After any sequence of connect and disconnect operations, the registry
/// holds exactly one entry per connection whose read loop has not yet
/// terminated: its entry count is the number of live connections, at every
/// observation point.
pub proof fn lemma_registry_tracks_live<C>(ops: Seq<RegistryOp<C>>)
    requires
        ops_admissible(ops),
    ensures
        apply_ops(ops).dom() == live_ids(ops),
        apply_ops(ops).dom().finite(),
        apply_ops(ops).dom().len() == live_ids(ops).len(),
    decreases ops.len(),
{
    if ops.len() == 0 {
        assert(apply_ops(ops).dom() =~= live_ids(ops));
    } else {
        lemma_registry_tracks_live(ops.drop_last());
        match ops.last() {
            RegistryOp::Register(id, ch) => {
                assert(apply_ops(ops).dom() =~= live_ids(ops));
            },
            RegistryOp::Unregister(id) => {
                assert(apply_ops(ops).dom() =~= live_ids(ops));
            },
        }
    }
}

} // verus!
