//! Free-list allocator of levels, handing out stable small-integer handles.
use vstd::prelude::*;
use crate::level::{Level, LevelId};
use crate::price::Price;
use crate::quantity::Qty;

verus! {

/// Dense storage of levels with a stack of released handles.
pub struct LevelPool {
    allocated: Vec<Level>,
    free: Vec<LevelId>,
}

impl LevelPool {
    /// The stored levels; a handle is an index into this sequence.
    pub closed spec fn levels(&self) -> Seq<Level> {
        self.allocated@
    }

    /// Released handles, most recent last.
    pub closed spec fn free_ids(&self) -> Seq<LevelId> {
        self.free@
    }

    /// True when a handle is waiting on the free list.
    pub open spec fn is_free(&self, id: u32) -> bool {
        exists|k: int| 0 <= k < self.free_ids().len() && self.free_ids()[k].0 == id
    }

    /// True when `alloc_level` can hand out a handle that fits in 32 bits.
    pub open spec fn can_alloc(&self) -> bool {
        self.free_ids().len() > 0 || self.levels().len() < u32::MAX
    }

    /// Free handles are distinct and in range.
    pub open spec fn wf(&self) -> bool {
        &&& forall|k: int|
            0 <= k < self.free_ids().len() ==> (self.free_ids()[k].0 as int) < self.levels().len()
        &&& forall|k1: int, k2: int|
            0 <= k1 < k2 < self.free_ids().len() ==> self.free_ids()[k1] != self.free_ids()[k2]
    }

    /// The handle that `alloc_level` hands out next.
    pub open spec fn next_id(&self) -> LevelId {
        if self.free_ids().len() > 0 {
            self.free_ids().last()
        } else {
            LevelId(self.levels().len() as u32)
        }
    }

    /// The stored levels once `alloc_level` has run.
    pub open spec fn levels_after_alloc(&self) -> Seq<Level> {
        if self.free_ids().len() > 0 {
            self.levels()
        } else {
            self.levels().push(Level { price: Price(0), size: Qty(0) })
        }
    }

    /// The free list once `alloc_level` has run.
    pub open spec fn free_after_alloc(&self) -> Seq<LevelId> {
        if self.free_ids().len() > 0 {
            self.free_ids().drop_last()
        } else {
            self.free_ids()
        }
    }

    /// Creates an empty pool.
    pub fn new() -> (r: Self)
        ensures
            r.levels() == Seq::<Level>::empty(),
            r.free_ids() == Seq::<LevelId>::empty(),
    {
        LevelPool { allocated: Vec::new(), free: Vec::new() }
    }

    /// Creates an empty pool with room reserved for `size` levels.
    pub fn new_with_capacity(size: usize) -> (r: Self)
        ensures
            r.levels() == Seq::<Level>::empty(),
            r.free_ids() == Seq::<LevelId>::empty(),
    {
        LevelPool { allocated: Vec::with_capacity(size), free: Vec::new() }
    }

    /// Hands out a handle: the most recently freed one if any, else a fresh
    /// slot holding a default level.
    pub fn alloc_level(&mut self) -> (r: LevelId)
        requires
            old(self).can_alloc(),
        ensures
            r == old(self).next_id(),
            final(self).levels() == old(self).levels_after_alloc(),
            final(self).free_ids() == old(self).free_after_alloc(),
    {
        match self.free.pop() {
            Some(idx) => idx,
            None => {
                let idx = LevelId(self.allocated.len() as u32);
                self.allocated.push(Level::default());
                idx
            },
        }
    }

    /// True when `alloc_level` can hand out a handle that fits in 32 bits.
    pub fn can_alloc_level(&self) -> (r: bool)
        ensures
            r == self.can_alloc(),
    {
        self.free.len() > 0 || self.allocated.len() < 4294967295usize
    }

    /// Returns a handle to the free list.
    pub fn free(&mut self, idx: LevelId)
        ensures
            final(self).free_ids() == old(self).free_ids().push(idx),
            final(self).levels() == old(self).levels(),
    {
        self.free.push(idx);
    }

    /// The level behind a handle, if the handle is in range.
    pub fn get(&self, idx: LevelId) -> (r: Option<&Level>)
        ensures
            r.is_some() == (idx.0 < self.levels().len()),
            r.is_some() ==> *r.unwrap() == self.levels()[idx.0 as int],
    {
        let i = idx.0 as usize;
        if i < self.allocated.len() {
            Some(&self.allocated[i])
        } else {
            None
        }
    }

    /// Mutable access to the level behind a handle, if the handle is in range.
    pub fn get_mut(&mut self, idx: LevelId) -> (r: Option<&mut Level>)
        ensures
            r.is_some() == (idx.0 < old(self).levels().len()),
            match r {
                Some(l) => {
                    &&& *l == old(self).levels()[idx.0 as int]
                    &&& final(self).levels() == old(self).levels().update(idx.0 as int, *final(l))
                    &&& final(self).free_ids() == old(self).free_ids()
                },
                None => *final(self) == *old(self),
            },
    {
        let i = idx.0 as usize;
        if i < self.allocated.len() {
            Some(&mut self.allocated[i])
        } else {
            None
        }
    }

    /// Overwrites the level behind a handle.
    pub fn set_level(&mut self, idx: LevelId, level: Level)
        requires
            idx.0 < old(self).levels().len(),
        ensures
            final(self).levels() == old(self).levels().update(idx.0 as int, level),
            final(self).free_ids() == old(self).free_ids(),
    {
        self.allocated.set(idx.0 as usize, level);
    }
}

} // verus!
