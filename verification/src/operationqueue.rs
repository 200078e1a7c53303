use vstd::prelude::*;
use std::collections::{HashMap, HashSet, VecDeque};

verus! {

broadcast use vstd::std_specs::hash::group_hash_axioms;

/// The position of a tile.
#[derive(Debug, Copy, Clone, Hash, PartialEq, Eq)]
pub struct TileIndex {
    pub x: i32,
    pub y: i32,
}

/// The key that stands for a tile in the queue's tables: `x` in the high
/// 32 bits, `y` in the low 32 bits.
pub open spec fn tile_key(index: TileIndex) -> u64 {
    ((index.x as u32 as u64) << 32u64) | (index.y as u32 as u64)
}

/// The tile that a key stands for.
pub open spec fn key_tile(key: u64) -> TileIndex {
    TileIndex { x: (key >> 32u64) as u32 as i32, y: key as u32 as i32 }
}

/// Keys and tiles correspond one to one.
pub proof fn lemma_tile_key_bijective(index: TileIndex, key: u64)
    ensures
        key_tile(tile_key(index)) == index,
        tile_key(key_tile(key)) == key,
{
    let x = index.x;
    let y = index.y;
    assert((((((x as u32 as u64) << 32u64) | (y as u32 as u64)) >> 32u64) as u32 as i32) == x)
        by (bit_vector);
    assert(((((x as u32 as u64) << 32u64) | (y as u32 as u64)) as u32 as i32) == y)
        by (bit_vector);
    assert(((((key >> 32u64) as u32 as i32) as u32 as u64) << 32u64) | ((key as u32 as i32) as u32
        as u64) == key) by (bit_vector);
}

fn key_of(index: TileIndex) -> (key: u64)
    ensures
        key == tile_key(index),
{
    ((index.x as u32 as u64) << 32u64) | (index.y as u32 as u64)
}

fn tile_of(key: u64) -> (index: TileIndex)
    ensures
        index == key_tile(key),
{
    TileIndex { x: (key >> 32u64) as u32 as i32, y: key as u32 as i32 }
}

/// Dab operations waiting to be drawn, queued per tile, with the set of
/// tiles that received an operation since the set was last cleared.
pub struct OperationQueue<T> {
    tile_map: HashMap<u64, VecDeque<T>>,
    dirty_tiles: HashSet<u64>,
}

impl<T> OperationQueue<T> {
    /// The operations queued for a tile, the first to be drawn first.
    pub closed spec fn ops(&self, index: TileIndex) -> Seq<T> {
        let key = tile_key(index);
        if self.tile_map@.contains_key(key) {
            self.tile_map@[key]@
        } else {
            Seq::empty()
        }
    }

    /// The tiles that received an operation since the set was last cleared.
    pub closed spec fn dirty(&self) -> Set<TileIndex> {
        Set::new(|index: TileIndex| self.dirty_tiles@.contains(tile_key(index)))
    }

    fn new() -> (q: Self)
        ensures
            forall|index: TileIndex| #[trigger] q.ops(index) == Seq::<T>::empty(),
            q.dirty() == Set::<TileIndex>::empty(),
    {
        let q = OperationQueue { tile_map: HashMap::new(), dirty_tiles: HashSet::new() };
        assert(q.dirty() =~= Set::<TileIndex>::empty());
        q
    }

    fn dirty_tiles(&self) -> (tiles: Vec<TileIndex>)
        ensures
            tiles@.to_set() == self.dirty(),
            tiles@.no_duplicates(),
    {
        let mut tiles: Vec<TileIndex> = Vec::new();
        let ghost ks = vstd::std_specs::iter::IteratorSpec::remaining(
            &vstd::std_specs::hash::spec_hash_keys_iter(&self.dirty_tiles),
        );
        for k in it: self.dirty_tiles.iter()
            invariant
                it.seq() == ks,
                tiles@.len() == it.index(),
                forall|j: int| 0 <= j < it.index() ==> tiles@[j] == key_tile(*ks[j]),
        {
            tiles.push(tile_of(*k));
        }
        proof {
            let keys = ks.unref();
            assert(tiles@.len() == keys.len());
            assert(keys.to_set() == self.dirty_tiles@);
            assert(keys.no_duplicates());
            assert(tiles@ =~= keys.map_values(|k: u64| key_tile(k)));
            assert forall|index: TileIndex| self.dirty().contains(index) implies tiles@.contains(
                index,
            ) by {
                let key = tile_key(index);
                assert(keys.to_set().contains(key));
                let j = choose|j: int| 0 <= j < keys.len() && keys[j] == key;
                lemma_tile_key_bijective(index, key);
                assert(tiles@[j] == index);
            }
            assert forall|index: TileIndex| tiles@.contains(index) implies self.dirty().contains(
                index,
            ) by {
                let j = choose|j: int| 0 <= j < tiles@.len() && tiles@[j] == index;
                lemma_tile_key_bijective(index, keys[j]);
                assert(keys.to_set().contains(keys[j]));
            }
            assert(tiles@.to_set() =~= self.dirty());
            assert forall|a: int, b: int|
                0 <= a < tiles@.len() && 0 <= b < tiles@.len() && a != b implies tiles@[a]
                != tiles@[b] by {
                lemma_tile_key_bijective(tiles@[a], keys[a]);
                lemma_tile_key_bijective(tiles@[b], keys[b]);
            }
        }
        tiles
    }

    fn clear_dirty_tiles(&mut self)
        ensures
            final(self).dirty() == Set::<TileIndex>::empty(),
            forall|index: TileIndex| #[trigger] final(self).ops(index) == old(self).ops(index),
    {
        self.dirty_tiles.clear();
        assert(self.dirty() =~= Set::<TileIndex>::empty());
    }

    fn push(&mut self, index: TileIndex, op: T)
        ensures
            final(self).ops(index) == old(self).ops(index).push(op),
            forall|other: TileIndex|
                other != index ==> #[trigger] final(self).ops(other) == old(self).ops(other),
            final(self).dirty() == old(self).dirty().insert(index),
    {
        let key = key_of(index);
        let mut q = match self.tile_map.remove(&key) {
            Some(q) => q,
            None => VecDeque::new(),
        };
        q.push_back(op);
        self.tile_map.insert(key, q);
        self.dirty_tiles.insert(key);
        proof {
            assert forall|other: TileIndex| other != index implies #[trigger] self.ops(other)
                == old(self).ops(other) by {
                lemma_tile_key_bijective(other, key);
                lemma_tile_key_bijective(index, key);
            }
            assert forall|t: TileIndex| #[trigger] self.dirty().contains(t) == old(self).dirty().insert(index).contains(t) by {
                lemma_tile_key_bijective(t, key);
                lemma_tile_key_bijective(index, key);
            }
            assert(self.dirty() =~= old(self).dirty().insert(index));
        }
    }

    fn pop(&mut self, index: TileIndex) -> (op: Option<T>)
        ensures
            old(self).ops(index).len() == 0 ==> op is None && final(self).ops(index) == old(self).ops(index),
            old(self).ops(index).len() > 0 ==> op == Some(old(self).ops(index)[0]) && final(self).ops(index) == old(self).ops(index).drop_first(),
            forall|other: TileIndex|
                other != index ==> #[trigger] final(self).ops(other) == old(self).ops(other),
            final(self).dirty() == old(self).dirty(),
    {
        let key = key_of(index);
        let ret = match self.tile_map.remove(&key) {
            Some(mut q) => {
                let ret = q.pop_front();
                if ret.is_some() {
                    self.tile_map.insert(key, q);
                }
                ret
            },
            None => None,
        };
        proof {
            assert forall|other: TileIndex| other != index implies #[trigger] self.ops(other)
                == old(self).ops(other) by {
                lemma_tile_key_bijective(other, key);
                lemma_tile_key_bijective(index, key);
            }
            if old(self).ops(index).len() > 0 {
                assert(self.ops(index) =~= old(self).ops(index).drop_first());
            } else {
                assert(self.ops(index) =~= old(self).ops(index));
            }
        }
        ret
    }
}

/// A new queue with no operations and no dirty tiles.
pub fn operation_queue_new<T>() -> (q: OperationQueue<T>)
    ensures
        forall|index: TileIndex| #[trigger] q.ops(index) == Seq::<T>::empty(),
        q.dirty() == Set::<TileIndex>::empty(),
{
    OperationQueue::new()
}

/// The tiles that received an operation since the dirty set was last
/// cleared, each once, in no particular order.
pub fn operation_queue_get_dirty_tiles<T>(self_: &OperationQueue<T>) -> (tiles: Vec<TileIndex>)
    ensures
        tiles@.to_set() == self_.dirty(),
        tiles@.no_duplicates(),
{
    self_.dirty_tiles()
}

/// Empties the set of dirty tiles; the queued operations stay.
pub fn operation_queue_clear_dirty_tiles<T>(self_: &mut OperationQueue<T>)
    ensures
        final(self_).dirty() == Set::<TileIndex>::empty(),
        forall|index: TileIndex| #[trigger] final(self_).ops(index) == old(self_).ops(index),
{
    self_.clear_dirty_tiles();
}

/// Queues `op` behind the operations of its tile and marks the tile dirty.
pub fn operation_queue_add<T>(self_: &mut OperationQueue<T>, index: TileIndex, op: T)
    ensures
        final(self_).ops(index) == old(self_).ops(index).push(op),
        forall|other: TileIndex|
            other != index ==> #[trigger] final(self_).ops(other) == old(self_).ops(other),
        final(self_).dirty() == old(self_).dirty().insert(index),
{
    self_.push(index, op);
}

/// Takes the first queued operation of a tile; `None` when the tile has
/// none.
pub fn operation_queue_pop<T>(self_: &mut OperationQueue<T>, index: TileIndex) -> (op: Option<T>)
    ensures
        old(self_).ops(index).len() == 0 ==> op is None && final(self_).ops(index) == old(self_).ops(index),
        old(self_).ops(index).len() > 0 ==> op == Some(old(self_).ops(index)[0]) && final(self_).ops(index) == old(self_).ops(index).drop_first(),
        forall|other: TileIndex|
            other != index ==> #[trigger] final(self_).ops(other) == old(self_).ops(other),
        final(self_).dirty() == old(self_).dirty(),
{
    self_.pop(index)
}

/// A call on an operation queue, as its set of dirty tiles sees it.
pub enum QueueCall {
    /// `operation_queue_add` on a tile.
    Add(TileIndex),
    /// `operation_queue_pop` on a tile.
    Pop(TileIndex),
    /// `operation_queue_clear_dirty_tiles`.
    Clear,
}

/// The tiles given to `Add` after the last `Clear` of `calls`, or since the
/// start where there is none.
pub open spec fn added_since_clear(calls: Seq<QueueCall>) -> Set<TileIndex>
    decreases calls.len(),
{
    if calls.len() == 0 {
        Set::empty()
    } else {
        match calls.last() {
            QueueCall::Add(index) => added_since_clear(calls.drop_last()).insert(index),
            QueueCall::Pop(_) => added_since_clear(calls.drop_last()),
            QueueCall::Clear => Set::empty(),
        }
    }
}

/// What the call leaves of the dirty set of `before` in `after`, as the
/// contracts of `operation_queue_add`, `operation_queue_pop` and
/// `operation_queue_clear_dirty_tiles` state it.
pub open spec fn dirty_step<T>(
    before: OperationQueue<T>,
    call: QueueCall,
    after: OperationQueue<T>,
) -> bool {
    match call {
        QueueCall::Add(index) => after.dirty() == before.dirty().insert(index),
        QueueCall::Pop(_) => after.dirty() == before.dirty(),
        QueueCall::Clear => after.dirty() == Set::<TileIndex>::empty(),
    }
}

/// Starting from a queue with no dirty tiles, as `operation_queue_new`
/// makes it, after any run of adds, pops and clears the dirty tiles are
/// exactly the tiles added since the last clear: pops remove none, and
/// right after a clear there are none.
pub proof fn lemma_dirty_tiles_since_clear<T>(
    states: Seq<OperationQueue<T>>,
    calls: Seq<QueueCall>,
)
    requires
        states.len() == calls.len() + 1,
        states[0].dirty() == Set::<TileIndex>::empty(),
        forall|k: int|
            0 <= k < calls.len() ==> dirty_step(states[k], #[trigger] calls[k], states[k + 1]),
    ensures
        states.last().dirty() == added_since_clear(calls),
    decreases calls.len(),
{
    if calls.len() > 0 {
        let k = calls.len() - 1;
        assert(dirty_step(states[k], calls[k], states[k + 1]));
        lemma_dirty_tiles_since_clear(states.drop_last(), calls.drop_last());
        assert(states.drop_last().last() == states[k]);
    }
}

} // verus!
