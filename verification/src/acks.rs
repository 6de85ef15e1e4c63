//! The acknowledgements that a connection still waits for.

use crate::packet::attachment_views;
use crate::transport::{ack_channel, fill_ack, AckResponse};
use std::collections::HashMap;
use tokio::sync::oneshot;
use vstd::arithmetic::div_mod::{
    lemma_add_mod_noop, lemma_mod_equivalence, lemma_mod_self_0, lemma_small_mod,
};
use vstd::prelude::*;

verus! {

broadcast use vstd::std_specs::hash::group_hash_axioms;

/// The acknowledgement id that follows `counter`: the next integer, and
/// behind the largest one the smallest.
pub open spec fn next_ack_id(counter: i64) -> i64 {
    if counter == i64::MAX {
        i64::MIN
    } else {
        (counter + 1) as i64
    }
}

/// The acknowledgement id that the `n`th draw behind `counter` gives.
pub open spec fn nth_ack_id(counter: i64, n: nat) -> i64
    decreases n,
{
    if n == 0 {
        counter
    } else {
        next_ack_id(nth_ack_id(counter, (n - 1) as nat))
    }
}

/// The integer that stands for `x` among the 64-bit signed integers.
spec fn wrapped(x: int) -> int {
    (x - i64::MIN) % 0x1_0000_0000_0000_0000 + i64::MIN
}

proof fn lemma_nth_ack_id_wraps(counter: i64, n: nat)
    ensures
        nth_ack_id(counter, n) == wrapped(counter + n),
    decreases n,
{
    let m = 0x1_0000_0000_0000_0000int;
    if n == 0 {
        lemma_small_mod((counter - i64::MIN) as nat, m as nat);
    } else {
        lemma_nth_ack_id_wraps(counter, (n - 1) as nat);
        let before = nth_ack_id(counter, (n - 1) as nat);
        let x = counter + n - 1 - i64::MIN;
        assert(before == x % m + i64::MIN);
        lemma_add_mod_noop(x, 1, m);
        lemma_small_mod(1, m as nat);
        assert((x % m + 1) % m == (x + 1) % m);
        if before == i64::MAX {
            assert(x % m + 1 == m);
            assert(m % m == 0) by {
                lemma_mod_self_0(m);
            }
        } else {
            lemma_small_mod((x % m + 1) as nat, m as nat);
        }
    }
}

/// The acknowledgement ids of one connection are pairwise distinct: two
/// draws give different ids, unless as many draws lie between them as there
/// are 64-bit integers.
pub proof fn lemma_ack_ids_distinct(counter: i64, i: nat, j: nat)
    requires
        i < j,
        j - i < 0x1_0000_0000_0000_0000,
    ensures
        nth_ack_id(counter, i) != nth_ack_id(counter, j),
{
    let m = 0x1_0000_0000_0000_0000int;
    lemma_nth_ack_id_wraps(counter, i);
    lemma_nth_ack_id_wraps(counter, j);
    let a = counter + i - i64::MIN;
    let b = counter + j - i64::MIN;
    if a % m == b % m {
        lemma_mod_equivalence(b, a, m);
        lemma_small_mod((j - i) as nat, m as nat);
        assert(b - a == j - i);
    }
}

/// One acknowledgement handed to its waiter.
pub struct Fulfillment {
    pub ack: i64,
    pub data: Seq<char>,
    pub bin: Seq<Seq<u8>>,
}

/// The one-shot waiters of a connection, by acknowledgement id.
pub struct AckRegistry {
    waiters: HashMap<i64, oneshot::Sender<AckResponse>>,
    fulfilled: Ghost<Seq<Fulfillment>>,
}

impl AckRegistry {
    /// The ids that a waiter is registered for.
    pub closed spec fn pending(&self) -> Set<i64> {
        self.waiters@.dom()
    }

    /// Every acknowledgement that was handed to a waiter, in order.
    pub closed spec fn fulfilled(&self) -> Seq<Fulfillment> {
        self.fulfilled@
    }

    /// A registry with no waiter.
    pub fn new() -> (registry: Self)
        ensures
            registry.pending() == Set::<i64>::empty(),
            registry.fulfilled() == Seq::<Fulfillment>::empty(),
    {
        let registry = AckRegistry { waiters: HashMap::new(), fulfilled: Ghost(Seq::empty()) };
        assert(registry.pending() =~= Set::<i64>::empty());
        registry
    }

    /// Registers a fresh waiter for `ack` and hands out the half to wait
    /// on. A waiter that was still registered for the id is dropped.
    pub fn register(&mut self, ack: i64) -> (rx: oneshot::Receiver<AckResponse>)
        ensures
            final(self).pending() == old(self).pending().insert(ack),
            final(self).fulfilled() == old(self).fulfilled(),
    {
        let (tx, rx) = ack_channel();
        self.waiters.insert(ack, tx);
        assert(self.pending() =~= old(self).pending().insert(ack));
        rx
    }

    /// Whether a waiter is registered for `ack`.
    pub fn is_pending(&self, ack: i64) -> (found: bool)
        ensures
            found == self.pending().contains(ack),
    {
        self.waiters.contains_key(&ack)
    }

    /// How many waiters are registered.
    pub fn len(&self) -> (n: usize)
        ensures
            n == self.pending().len(),
    {
        self.waiters.len()
    }

    /// Hands an acknowledgement to the waiter of `ack` and removes the
    /// waiter, so that it is fulfilled once and never again. Where no
    /// waiter is registered for the id nothing happens.
    pub fn fulfill(&mut self, ack: i64, data: String, bin: Vec<Vec<u8>>) -> (found: bool)
        ensures
            found == old(self).pending().contains(ack),
            final(self).pending() == old(self).pending().remove(ack),
            final(self).fulfilled() == if found {
                old(self).fulfilled().push(
                    Fulfillment { ack, data: data@, bin: attachment_views(bin@) },
                )
            } else {
                old(self).fulfilled()
            },
    {
        match self.waiters.remove(&ack) {
            Some(tx) => {
                self.fulfilled = Ghost(
                    self.fulfilled@.push(
                        Fulfillment { ack, data: data@, bin: attachment_views(bin@) },
                    ),
                );
                fill_ack(tx, (data, bin));
                assert(self.pending() =~= old(self).pending().remove(ack));
                true
            },
            None => {
                assert(self.pending() =~= old(self).pending().remove(ack));
                false
            },
        }
    }

    /// Gives up the waiter of `ack`: an acknowledgement that comes later
    /// finds none. Returns whether there was one.
    pub fn expire(&mut self, ack: i64) -> (found: bool)
        ensures
            found == old(self).pending().contains(ack),
            final(self).pending() == old(self).pending().remove(ack),
            final(self).fulfilled() == old(self).fulfilled(),
    {
        let removed = self.waiters.remove(&ack);
        assert(self.pending() =~= old(self).pending().remove(ack));
        removed.is_some()
    }

    /// Gives up every waiter, as when the transport goes away.
    pub fn cancel_all(&mut self)
        ensures
            final(self).pending() == Set::<i64>::empty(),
            final(self).fulfilled() == old(self).fulfilled(),
    {
        self.waiters.clear();
        assert(self.pending() =~= Set::<i64>::empty());
    }
}

/// An acknowledgement that finds no waiter changes nothing: whether it was
/// never asked for, or its waiter was fulfilled or given up before, the
/// registry is as it was before and after.
pub proof fn lemma_stray_ack_is_ignored(before: AckRegistry, ack: i64, after: AckRegistry)
    requires
        !before.pending().contains(ack),
        after.pending() == before.pending().remove(ack),
        after.fulfilled() == before.fulfilled(),
    ensures
        after.pending() == before.pending(),
        after.fulfilled() == before.fulfilled(),
{
    assert(before.pending().remove(ack) =~= before.pending());
}

/// The counter after `k` draws is the `k`th id behind the counter at the
/// start.
proof fn lemma_run_follows_the_counter(counters: Seq<i64>, k: int)
    requires
        0 <= k < counters.len(),
        forall|i: int|
            0 <= i < counters.len() - 1 ==> counters[i + 1] == next_ack_id(#[trigger] counters[i]),
    ensures
        counters[k] == nth_ack_id(counters[0], k as nat),
    decreases k,
{
    if k > 0 {
        lemma_run_follows_the_counter(counters, k - 1);
        assert(counters[k - 1 + 1] == next_ack_id(counters[k - 1]));
    }
}

/// The requests of one connection carry pairwise distinct ids, however
/// many there are, short of as many as there are 64-bit integers.
/// `counters` holds the connection's counter before the first request and
/// after each one. Every request sets the counter to the id that follows
/// it and carries that id, so the ids of the requests are the entries
/// behind the first, and no two entries are the same.
pub proof fn lemma_requests_carry_distinct_ids(counters: Seq<i64>)
    requires
        counters.len() <= 0x1_0000_0000_0000_0000,
        forall|i: int|
            0 <= i < counters.len() - 1 ==> counters[i + 1] == next_ack_id(#[trigger] counters[i]),
    ensures
        forall|i: int, j: int| 0 <= i < j < counters.len() ==> counters[i] != counters[j],
{
    assert forall|i: int, j: int| 0 <= i < j < counters.len() implies counters[i] != counters[j] by {
        lemma_run_follows_the_counter(counters, i);
        lemma_run_follows_the_counter(counters, j);
        lemma_ack_ids_distinct(counters[0], i as nat, j as nat);
    }
}

} // verus!
