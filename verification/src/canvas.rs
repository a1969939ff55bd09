use vstd::prelude::*;
use std::collections::HashMap;
use crate::order::{i32s_sorted, sort_i32s};

verus! {

broadcast use {
    vstd::std_specs::hash::group_hash_axioms,
    vstd::seq_lib::group_to_multiset_ensures,
    vstd::multiset::group_multiset_axioms,
    vstd::seq_lib::group_seq_properties,
};

/// A drawing request for the overlay server: shapes for one layer, which
/// expire after `timeout_ms` if that is given.
pub struct Command<Op> {
    pub layer: Option<i32>,
    pub timeout_ms: Option<u64>,
    pub operations: Vec<Op>,
}

/// The shapes of one layer, and when they expire (milliseconds on the
/// server's monotonic clock).
pub struct Layer<Op> {
    pub operations: Vec<Op>,
    pub expiry: Option<u64>,
}

/// Whether `layer` is still shown at time `now`.
pub open spec fn is_live<Op>(layer: Layer<Op>, now: u64) -> bool {
    match layer.expiry {
        Some(e) => e > now,
        None => true,
    }
}

/// The layer id a command draws on (0 when it names none).
pub open spec fn layer_id<Op>(command: Command<Op>) -> i32 {
    match command.layer {
        Some(l) => l,
        None => 0,
    }
}

/// The layer a command received at `now` sets up.
pub open spec fn layer_of<Op>(command: Command<Op>, now: u64) -> Layer<Op> {
    Layer {
        operations: command.operations,
        expiry: match command.timeout_ms {
            Some(ms) => Some((now + ms) as u64),
            None => None,
        },
    }
}

/// Layers after taking `command` at time `now`: its layer replaces whatever
/// that id held.
pub open spec fn updated<Op>(layers: Map<i32, Layer<Op>>, command: Command<Op>, now: u64) -> Map<
    i32,
    Layer<Op>,
> {
    layers.insert(layer_id(command), layer_of(command, now))
}

/// Layers still live at time `now`.
pub open spec fn pruned<Op>(layers: Map<i32, Layer<Op>>, now: u64) -> Map<i32, Layer<Op>> {
    layers.restrict(layers.dom().filter(|k: i32| is_live(layers[k], now)))
}

/// Whether a command received at `now` can be timed without overflow.
pub open spec fn fits_clock<Op>(command: Command<Op>, now: u64) -> bool {
    match command.timeout_ms {
        Some(ms) => now + ms <= u64::MAX,
        None => true,
    }
}

/// The layers the overlay server shows, by id; higher ids are drawn on top.
pub struct CanvasState<Op> {
    layers: HashMap<i32, Layer<Op>>,
}

impl<Op> View for CanvasState<Op> {
    type V = Map<i32, Layer<Op>>;

    closed spec fn view(&self) -> Map<i32, Layer<Op>> {
        self.layers@
    }
}

impl<Op> CanvasState<Op> {
    /// An empty canvas.
    pub fn new() -> (r: Self)
        ensures
            r@ == Map::<i32, Layer<Op>>::empty(),
    {
        CanvasState { layers: HashMap::new() }
    }

    /// Takes a command received at time `now`: its shapes replace those of
    /// its layer, expiring `timeout_ms` later when that is given.
    pub fn update(&mut self, command: Command<Op>, now: u64)
        requires
            fits_clock(command, now),
        ensures
            final(self)@ == updated(old(self)@, command, now),
    {
        let ghost cmd = command;
        let layer_id = match command.layer {
            Some(l) => l,
            None => 0,
        };
        let expiry = match command.timeout_ms {
            Some(ms) => Some(now + ms),
            None => None,
        };
        self.layers.insert(layer_id, Layer { operations: command.operations, expiry });
        assert(self.layers@ == updated(old(self)@, cmd, now));
    }

    /// Every layer id once, in no particular order.
    fn ids(&self) -> (ids: Vec<i32>)
        ensures
            ids@.no_duplicates(),
            ids@.to_set() == self@.dom(),
    {
        let mut keys: Vec<i32> = Vec::new();
        for k in iter: self.layers.keys()
            invariant
                iter.seq().unref().to_set() == self@.dom(),
                iter.seq().no_duplicates(),
                keys@ == iter.seq().unref().take(iter.index()),
                iter.index() == iter.seq().len() ==> keys@ == iter.seq().unref(),
        {
            keys.push(*k);
            assert(iter.seq().unref().take(iter.seq().len() as int) =~= iter.seq().unref());
        }
        keys
    }

    /// Drops the layers that have expired by time `now`; gives whether any did.
    pub fn prune(&mut self, now: u64) -> (changed: bool)
        ensures
            final(self)@ == pruned(old(self)@, now),
            changed == exists|k: i32| #[trigger]
                old(self)@.contains_key(k) && !is_live(old(self)@[k], now),
    {
        let keys = self.ids();
        let mut expired: Vec<i32> = Vec::new();
        let mut i: usize = 0;
        while i < keys.len()
            invariant
                i <= keys@.len(),
                keys@.to_set() == self@.dom(),
                forall|x: i32| #[trigger]
                    expired@.contains(x) <==> (keys@.take(i as int).contains(x) && !is_live(
                        self@[x],
                        now,
                    )),
                forall|x: i32| #[trigger] expired@.contains(x) ==> self@.contains_key(x),
            decreases keys@.len() - i,
        {
            let k = keys[i];
            assert(keys@.to_set().contains(k));
            let dead = match self.layers.get(&k) {
                Some(layer) => {
                    assert(*layer == self@[k]);
                    match layer.expiry {
                        Some(e) => !(e > now),
                        None => false,
                    }
                },
                None => false,
            };
            assert(dead == !is_live(self@[k], now));
            if dead {
                expired.push(k);
            }
            assert(keys@.take(i + 1) =~= keys@.take(i as int).push(k));
            i += 1;
        }
        assert(keys@.take(keys@.len() as int) =~= keys@);
        let ghost start = self@;
        let mut j: usize = 0;
        assert(expired@.take(0).to_set() =~= Set::empty());
        assert(start.remove_keys(Set::empty()) =~= start);
        while j < expired.len()
            invariant
                j <= expired@.len(),
                self@ == start.remove_keys(expired@.take(j as int).to_set()),
            decreases expired@.len() - j,
        {
            let k = expired[j];
            self.layers.remove(&k);
            assert(expired@.take(j + 1) =~= expired@.take(j as int).push(k));
            proof {
                expired@.take(j as int).lemma_push_to_set_commute(k);
            }
            assert(self@ =~= start.remove_keys(expired@.take(j + 1).to_set()));
            j += 1;
        }
        assert(expired@.take(expired@.len() as int) =~= expired@);
        assert(self@ =~= pruned(start, now));
        proof {
            if expired@.len() > 0 {
                assert(expired@.contains(expired@[0]));
            }
            if exists|k: i32| #[trigger] start.contains_key(k) && !is_live(start[k], now) {
                let k = choose|k: i32| #[trigger] start.contains_key(k) && !is_live(start[k], now);
                assert(keys@.contains(k));
                assert(expired@.contains(k));
            }
        }
        expired.len() > 0
    }

    /// The layer ids in drawing order: every layer once, ascending.
    pub fn draw_order(&self) -> (ids: Vec<i32>)
        ensures
            i32s_sorted(ids@),
            ids@.no_duplicates(),
            ids@.to_set() == self@.dom(),
    {
        let keys = self.ids();
        let ghost all = keys@;
        proof {
            all.lemma_multiset_has_no_duplicates();
        }
        let ids = sort_i32s(keys);
        proof {
            ids@.lemma_multiset_has_no_duplicates_conv();
            assert forall|x: i32| ids@.to_set().contains(x) <==> all.to_set().contains(x) by {
                assert(ids@.contains(x) <==> ids@.to_multiset().count(x) > 0);
                assert(all.contains(x) <==> all.to_multiset().count(x) > 0);
            }
            assert(ids@.to_set() =~= all.to_set());
        }
        ids
    }

    /// The layer with id `id`, if there is one.
    pub fn layer(&self, id: i32) -> (r: Option<&Layer<Op>>)
        ensures
            match r {
                Some(l) => self@.contains_key(id) && *l == self@[id],
                None => !self@.contains_key(id),
            },
    {
        self.layers.get(&id)
    }
}

} // verus!

verus! {

/// Pruning twice at the same time removes nothing the first pruning left.
pub proof fn lemma_prune_idempotent<Op>(layers: Map<i32, Layer<Op>>, now: u64)
    ensures
        pruned(pruned(layers, now), now) == pruned(layers, now),
{
    assert(pruned(pruned(layers, now), now) =~= pruned(layers, now));
}

/// After a command, its layer holds exactly the command's shapes, and every
/// other layer is as it was.
pub proof fn lemma_update_then_read<Op>(layers: Map<i32, Layer<Op>>, command: Command<Op>, now: u64, other: i32)
    ensures
        updated(layers, command, now).contains_key(layer_id(command)),
        updated(layers, command, now)[layer_id(command)].operations == command.operations,
        other != layer_id(command) ==> (updated(layers, command, now).contains_key(other)
            == layers.contains_key(other) && (layers.contains_key(other) ==> updated(
            layers,
            command,
            now,
        )[other] == layers[other])),
{
}

/// A layer sent without a timeout survives every pruning; one sent with a
/// timeout is pruned once that many milliseconds have passed, and not before.
pub proof fn lemma_expiry<Op>(layers: Map<i32, Layer<Op>>, command: Command<Op>, now: u64, later: u64)
    requires
        fits_clock(command, now),
    ensures
        command.timeout_ms is None ==> pruned(updated(layers, command, now), later).contains_key(
            layer_id(command),
        ),
        command.timeout_ms matches Some(ms) ==> (pruned(updated(layers, command, now), later).contains_key(
            layer_id(command),
        ) <==> later < now + ms),
{
}

} // verus!
