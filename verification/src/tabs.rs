//! The window's list of tabs and which of them is active.

use vstd::prelude::*;

use crate::actions::{next_tab_index, prev_tab_index};

verus! {

/// The tabs of a window, in tab-bar order, and the index of the active one.
pub struct TabList<T> {
    tabs: Vec<T>,
    active: usize,
}

/// The position a tab dragged from `from` takes when dropped into slot
/// `to` (the slot before tab `to`; `len` is after the last tab), among
/// `len` tabs.
pub open spec fn spec_drop_target(from: int, to: int, len: int) -> int {
    if to > from {
        if to - 1 < len - 1 { to - 1 } else { len - 1 }
    } else {
        to
    }
}

impl<T> TabList<T> {
    /// The active index is that of a tab, or 0 when there is none.
    #[verifier::type_invariant]
    closed spec fn inv(self) -> bool {
        if self.tabs@.len() == 0 {
            self.active == 0
        } else {
            self.active < self.tabs@.len()
        }
    }

    /// The tabs, in order.
    pub closed spec fn view(&self) -> Seq<T> {
        self.tabs@
    }

    /// The index of the active tab.
    pub closed spec fn active_index(&self) -> int {
        self.active as int
    }

    /// No tab.
    pub fn new() -> (l: TabList<T>)
        ensures
            l@ == Seq::<T>::empty(),
            l.active_index() == 0,
    {
        TabList { tabs: Vec::new(), active: 0 }
    }

    /// The tabs, in order.
    pub fn as_slice(&self) -> (r: &[T])
        ensures
            r@ == self@,
    {
        self.tabs.as_slice()
    }

    /// Number of tabs.
    pub fn len(&self) -> (r: usize)
        ensures
            r == self@.len(),
    {
        self.tabs.len()
    }

    /// Index of the active tab.
    pub fn active(&self) -> (r: usize)
        ensures
            r == self.active_index(),
            self@.len() == 0 ==> r == 0,
            self@.len() > 0 ==> r < self@.len(),
    {
        proof {
            use_type_invariant(self);
        }
        self.active
    }

    /// The tab at `index`, if there is one.
    pub fn get(&self, index: usize) -> (r: Option<&T>)
        ensures
            r == if index < self@.len() {
                Some(&self@[index as int])
            } else {
                None
            },
    {
        if index < self.tabs.len() {
            Some(&self.tabs[index])
        } else {
            None
        }
    }

    /// The active tab, if there is one.
    pub fn active_tab(&self) -> (r: Option<&T>)
        ensures
            r == if self@.len() > 0 {
                Some(&self@[self.active_index()])
            } else {
                None
            },
    {
        proof {
            use_type_invariant(self);
        }
        self.get(self.active)
    }

    /// Takes the tabs out, leaving none.
    fn take_tabs(&mut self) -> (r: Vec<T>)
        ensures
            r@ == old(self)@,
            final(self)@ == Seq::<T>::empty(),
            final(self).active_index() == 0,
    {
        let mut me = TabList { tabs: Vec::new(), active: 0 };
        std::mem::swap(&mut me, self);
        let TabList { tabs, active: _ } = me;
        tabs
    }

    /// The tab at `index`, to be changed in place.
    pub fn tab_mut(&mut self, index: usize) -> (r: &mut T)
        requires
            index < old(self)@.len(),
        ensures
            *r == old(self)@[index as int],
            final(self)@ == old(self)@.update(index as int, *final(r)),
            final(self).active_index() == old(self).active_index(),
    {
        proof {
            use_type_invariant(&*self);
        }
        &mut self.tabs[index]
    }

    /// Appends `tab` and makes it active.
    pub fn push(&mut self, tab: T)
        ensures
            final(self)@ == old(self)@.push(tab),
            final(self).active_index() == old(self)@.len(),
    {
        let mut tabs = self.take_tabs();
        tabs.push(tab);
        let active = tabs.len() - 1;
        *self = TabList { tabs, active };
    }

    /// Makes the tab at `index` active; does nothing when there is none.
    pub fn goto(&mut self, index: usize)
        ensures
            final(self)@ == old(self)@,
            final(self).active_index() == if index < old(self)@.len() {
                index as int
            } else {
                old(self).active_index()
            },
    {
        if index < self.tabs.len() {
            self.active = index;
        }
    }

    /// Makes the next tab active, wrapping around after the last.
    pub fn next(&mut self)
        ensures
            final(self)@ == old(self)@,
            final(self).active_index() == if old(self)@.len() > 0 {
                (old(self).active_index() + 1) % (old(self)@.len() as int)
            } else {
                0
            },
    {
        proof {
            use_type_invariant(&*self);
        }
        if self.active < self.tabs.len() {
            self.active = next_tab_index(self.active, self.tabs.len());
        }
    }

    /// Makes the previous tab active, wrapping around before the first.
    pub fn prev(&mut self)
        ensures
            final(self)@ == old(self)@,
            final(self).active_index() == if old(self)@.len() > 0 {
                (old(self).active_index() + old(self)@.len() - 1) % (old(self)@.len() as int)
            } else {
                0
            },
    {
        proof {
            use_type_invariant(&*self);
        }
        if self.active < self.tabs.len() {
            self.active = prev_tab_index(self.active, self.tabs.len());
        }
    }

    /// Removes and returns the tab at `index`, if there is one. The active
    /// index stays where it was, or moves to the new last tab when it was
    /// past it.
    pub fn remove(&mut self, index: usize) -> (r: Option<T>)
        ensures
            index < old(self)@.len() ==> r == Some(old(self)@[index as int])
                && final(self)@ == old(self)@.remove(index as int)
                && final(self).active_index() == if old(self).active_index() < final(self)@.len() {
                    old(self).active_index()
                } else if final(self)@.len() > 0 {
                    final(self)@.len() - 1
                } else {
                    0
                },
            index >= old(self)@.len() ==> r is None && final(self)@ == old(self)@
                && final(self).active_index() == old(self).active_index(),
    {
        if index >= self.tabs.len() {
            return None;
        }
        let old_active = self.active;
        let mut tabs = self.take_tabs();
        let tab = tabs.remove(index);
        let active = if old_active < tabs.len() {
            old_active
        } else if tabs.len() > 0 {
            tabs.len() - 1
        } else {
            0
        };
        *self = TabList { tabs, active };
        Some(tab)
    }

    /// Moves the tab at `from` to the drop slot `to` (the slot before tab
    /// `to`; the number of tabs is the slot after the last) and makes it
    /// active; does nothing when there is no tab at `from`.
    pub fn move_tab(&mut self, from: usize, to: usize)
        ensures
            from < old(self)@.len() ==> {
                let t = spec_drop_target(from as int, to as int, old(self)@.len() as int);
                &&& final(self)@ == old(self)@.remove(from as int).insert(t, old(self)@[from as int])
                &&& final(self).active_index() == t
            },
            from >= old(self)@.len() ==> final(self)@ == old(self)@
                && final(self).active_index() == old(self).active_index(),
    {
        if from >= self.tabs.len() {
            return;
        }
        let mut tabs = self.take_tabs();
        let len = tabs.len();
        let target = if to > from {
            if to - 1 < len - 1 { to - 1 } else { len - 1 }
        } else {
            to
        };
        let tab = tabs.remove(from);
        tabs.insert(target, tab);
        *self = TabList { tabs, active: target };
    }
}

/// Moving a tab keeps every tab, each as many times as before: the moved
/// tab lands at its drop target and the active index points at it.
pub proof fn lemma_move_keeps_tabs<T>(tabs: Seq<T>, from: int, to: int)
    requires
        0 <= from < tabs.len(),
        0 <= to,
    ensures
        ({
            let t = spec_drop_target(from, to, tabs.len() as int);
            let moved = tabs.remove(from).insert(t, tabs[from]);
            &&& 0 <= t < tabs.len()
            &&& moved.len() == tabs.len()
            &&& moved[t] == tabs[from]
            &&& moved.to_multiset() == tabs.to_multiset()
        }),
{
    broadcast use vstd::multiset::group_multiset_axioms;

    let t = spec_drop_target(from, to, tabs.len() as int);
    let rest = tabs.remove(from);
    vstd::seq_lib::to_multiset_remove(tabs, from);
    vstd::seq_lib::to_multiset_insert(rest, t, tabs[from]);
    assert(tabs.to_multiset().remove(tabs[from]).insert(tabs[from]) =~= tabs.to_multiset()) by {
        vstd::seq_lib::to_multiset_contains(tabs, tabs[from]);
        assert(tabs.contains(tabs[from]));
    }
}

} // verus!
