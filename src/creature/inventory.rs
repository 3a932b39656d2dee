use vstd::prelude::*;

verus! {

/// A fixed number of slots, each empty or holding an item id.
#[derive(Clone, Debug)]
pub struct Inventory {
    items: Vec<Option<u128>>,
}

impl Inventory {
    pub closed spec fn slots(&self) -> Seq<Option<u128>> {
        self.items@
    }

    pub fn new(n_slots: usize) -> (r: Self)
        ensures
            r.slots().len() == n_slots,
            forall|i: int| 0 <= i < n_slots ==> r.slots()[i] is None,
    {
        let mut items: Vec<Option<u128>> = Vec::new();
        let mut i: usize = 0;
        while i < n_slots
            invariant
                0 <= i <= n_slots,
                items@.len() == i,
                forall|k: int| 0 <= k < i ==> items@[k] is None,
            decreases n_slots - i,
        {
            items.push(None);
            i = i + 1;
        }
        Self { items }
    }

    pub fn len(&self) -> (r: usize)
        ensures
            r == self.slots().len(),
    {
        self.items.len()
    }

    pub fn valid_slot(&self, slot: usize) -> (r: bool)
        ensures
            r == (slot < self.slots().len()),
    {
        slot < self.len()
    }

    /// The item in `slot`; `None` for an empty or missing slot.
    pub fn get_item(&self, slot: usize) -> (r: Option<u128>)
        ensures
            r == (if slot < self.slots().len() {
                self.slots()[slot as int]
            } else {
                None
            }),
    {
        if !self.valid_slot(slot) {
            return None;
        }
        self.items[slot]
    }

    /// Puts `new_item` in `slot` and returns what was there.
    pub fn replace_item(&mut self, slot: usize, new_item: u128) -> (r: Option<u128>)
        requires
            slot < old(self).slots().len(),
        ensures
            r == old(self).slots()[slot as int],
            final(self).slots() == old(self).slots().update(slot as int, Some(new_item)),
    {
        let old_item = self.get_item(slot);
        self.items.set(slot, Some(new_item));
        old_item
    }

    /// Empties `slot` and returns what was there.
    pub fn drop_item(&mut self, slot: usize) -> (r: Option<u128>)
        requires
            slot < old(self).slots().len(),
        ensures
            r == old(self).slots()[slot as int],
            final(self).slots() == old(self).slots().update(slot as int, None),
    {
        let old_item = self.items[slot];
        self.items.set(slot, None);
        old_item
    }
}

} // verus!
