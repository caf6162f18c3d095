//! The notice board: the short-lived log of inventory changes the interface
//! shows the player.
//!
//! Entries carry the item concerned, the signed unit change, and when they
//! expire; the per-tick maintenance pass removes everything expired, keeping
//! the rest in order.

use vstd::prelude::*;
use crate::items::Item;

verus! {

/// One notice: an item, how many units appeared or left, and when the notice
/// decays.
#[derive(Clone, Copy, Debug, PartialEq, Eq, Structural)]
pub struct NoticeEntry {
    pub item: Item,
    pub change: i32,
    pub expires_at_ms: u64,
}

/// The ordered list of live notices.
pub struct NoticeBoard {
    entries: Vec<NoticeEntry>,
}

impl View for NoticeBoard {
    type V = Seq<NoticeEntry>;

    closed spec fn view(&self) -> Seq<NoticeEntry> {
        self.entries@
    }
}

impl NoticeBoard {
    pub fn new() -> (r: Self)
        ensures
            r@ == Seq::<NoticeEntry>::empty(),
    {
        let r = NoticeBoard { entries: Vec::new() };
        proof {
            assert(r@ =~= Seq::<NoticeEntry>::empty());
        }
        r
    }

    pub fn len(&self) -> (r: usize)
        ensures
            r == self@.len(),
    {
        self.entries.len()
    }

    pub fn get(&self, i: usize) -> (r: NoticeEntry)
        requires
            i < self@.len(),
        ensures
            r == self@[i as int],
    {
        self.entries[i]
    }

    /// Append one notice at the back.
    pub fn add_entry(&mut self, entry: NoticeEntry)
        ensures
            final(self)@ == old(self)@.push(entry),
    {
        self.entries.push(entry);
    }

    /// Drop every expired notice (expiry at or before `now`), keeping the
    /// rest in order.
    pub fn update_entries(&mut self, now_ms: u64)
        ensures
            final(self)@ == old(self)@.filter(|e: NoticeEntry| e.expires_at_ms > now_ms),
    {
        let ghost all = self.entries@;
        let mut kept: Vec<NoticeEntry> = Vec::new();
        let n = self.entries.len();
        let mut i: usize = 0;
        proof {
            assert(all.take(0) =~= Seq::<NoticeEntry>::empty());
            assert(Seq::<NoticeEntry>::empty().filter(|e: NoticeEntry| e.expires_at_ms > now_ms)
                =~= Seq::<NoticeEntry>::empty()) by {
                reveal(Seq::filter);
            }
            assert(kept@ =~= all.take(0).filter(|e: NoticeEntry| e.expires_at_ms > now_ms));
        }
        while i < n
            invariant
                i <= n,
                self.entries@ == all,
                all.len() == n,
                kept@ == all.take(i as int).filter(|e: NoticeEntry| e.expires_at_ms > now_ms),
            decreases n - i,
        {
            proof {
                let p = |e: NoticeEntry| e.expires_at_ms > now_ms;
                assert(all.take(i + 1) =~= all.take(i as int).push(all[i as int]));
                all.take(i as int).lemma_filter_push(all[i as int], p);
            }
            let e = self.entries[i];
            if e.expires_at_ms > now_ms {
                kept.push(e);
            }
            i = i + 1;
        }
        proof {
            assert(all.take(n as int) =~= all);
        }
        self.entries = kept;
    }

    /// Drop everything.
    pub fn reset(&mut self)
        ensures
            final(self)@ == Seq::<NoticeEntry>::empty(),
    {
        self.entries.clear();
        proof {
            assert(self@ =~= Seq::<NoticeEntry>::empty());
        }
    }
}

} // verus!
