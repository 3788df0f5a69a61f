//! An ordered collection with a single selection cursor and wraparound
//! navigation. The cursor is always a valid index while the list is
//! nonempty, and stays unset while it is empty.

use vstd::arithmetic::div_mod::{
    lemma_add_mod_noop, lemma_mod_self_0, lemma_small_mod,
};
use vstd::prelude::*;

verus! {

pub struct StatefulList<T> {
    pub items: Vec<T>,
    pub state: Option<usize>,
}

/// Where one `next` step moves the cursor: the first item from an unset
/// cursor, one forward otherwise, wrapping past the end to the front.
pub open spec fn spec_next(len: nat, sel: Option<usize>) -> Option<usize>
    recommends
        len <= usize::MAX,
{
    if len == 0 {
        None
    } else {
        match sel {
            None => Some(0usize),
            Some(i) => if i + 1 >= len {
                Some(0usize)
            } else {
                Some((i + 1) as usize)
            },
        }
    }
}

/// Where one `previous` step moves the cursor: the first item from an unset
/// cursor, one back otherwise, wrapping past the front to the end.
pub open spec fn spec_previous(len: nat, sel: Option<usize>) -> Option<usize>
    recommends
        len <= usize::MAX,
{
    if len == 0 {
        None
    } else {
        match sel {
            None => Some(0usize),
            Some(i) => if i == 0 {
                Some((len - 1) as usize)
            } else {
                Some((i - 1) as usize)
            },
        }
    }
}

/// The cursor after `k` `next` steps.
pub open spec fn iter_next(len: nat, sel: Option<usize>, k: nat) -> Option<usize>
    decreases k,
{
    if k == 0 {
        sel
    } else {
        spec_next(len, iter_next(len, sel, (k - 1) as nat))
    }
}

impl<T> StatefulList<T> {
    /// Invariant: a set cursor is a valid index, and an empty list has none.
    pub open spec fn wf(self) -> bool {
        &&& match self.state {
            Some(i) => i < self.items@.len(),
            None => true,
        }
        &&& self.items@.len() == 0 ==> self.state is None
    }

    /// Wrap a sequence of items; the selection starts unset.
    pub fn with_items(items: Vec<T>) -> (l: StatefulList<T>)
        ensures
            l.items == items,
            l.state is None,
            l.wf(),
    {
        StatefulList { items, state: None }
    }

    pub fn selected(&self) -> (r: Option<usize>)
        ensures
            r == self.state,
    {
        self.state
    }

    /// Advance the cursor one step, wrapping to the front past the last
    /// item; on an empty list the cursor stays unset.
    pub fn next(&mut self)
        requires
            old(self).wf(),
        ensures
            final(self).items == old(self).items,
            final(self).state == spec_next(old(self).items@.len(), old(self).state),
            final(self).wf(),
    {
        if self.items.len() == 0 {
            self.state = None;
        } else {
            self.state = match self.state {
                None => Some(0),
                Some(i) => if i + 1 >= self.items.len() {
                    Some(0)
                } else {
                    Some(i + 1)
                },
            };
        }
    }

    /// Move the cursor one step back, wrapping to the last item from the
    /// front; on an empty list the cursor stays unset.
    pub fn previous(&mut self)
        requires
            old(self).wf(),
        ensures
            final(self).items == old(self).items,
            final(self).state == spec_previous(old(self).items@.len(), old(self).state),
            final(self).wf(),
    {
        if self.items.len() == 0 {
            self.state = None;
        } else {
            self.state = match self.state {
                None => Some(0),
                Some(i) => if i == 0 {
                    Some(self.items.len() - 1)
                } else {
                    Some(i - 1)
                },
            };
        }
    }
}

/// `k` `next` steps from a set cursor land on the start plus `k`, modulo the
/// length.
proof fn lemma_iter_next_mod(len: nat, i: nat, k: nat)
    requires
        0 < len <= usize::MAX,
        i < len,
    ensures
        iter_next(len, Some(i as usize), k) == Some((((i + k) as int) % (len as int)) as usize),
    decreases k,
{
    if k == 0 {
        lemma_small_mod(i, len);
    } else {
        lemma_iter_next_mod(len, i, (k - 1) as nat);
        let j = ((i + k - 1) as int) % (len as int);
        assert(0 <= j < len);
        if j + 1 >= len {
            assert(j + 1 == len);
            lemma_add_mod_noop(i + k - 1, 1, len as int);
            lemma_small_mod(j as nat, len);
            lemma_mod_self_0(len as int);
            if len == 1 {
                assert(((i + k) as int) % (len as int) == 0);
            } else {
                lemma_small_mod(1nat, len);
                assert(((i + k) as int) % (len as int) == (j + 1) % (len as int));
            }
        } else {
            lemma_add_mod_noop(i + k - 1, 1, len as int);
            lemma_small_mod(1nat, len);
            lemma_small_mod(j as nat, len);
            lemma_small_mod((j + 1) as nat, len);
        }
    }
}

/// Wraparound closure: from any set cursor position, as many `next` steps
/// as there are items lead back to the same position; and one step back
/// from the front lands on the last item.
pub proof fn lemma_wraparound_closure(len: nat, i: nat)
    requires
        0 < len <= usize::MAX,
        i < len,
    ensures
        iter_next(len, Some(i as usize), len) == Some(i as usize),
        spec_previous(len, Some(0usize)) == Some((len - 1) as usize),
{
    lemma_iter_next_mod(len, i, len);
    lemma_add_mod_noop(i as int, len as int, len as int);
    lemma_small_mod(i, len);
    lemma_mod_self_0(len as int);
}

/// The first `next` on a nonempty list selects the first item, and as many
/// further steps as there are items return to it.
pub proof fn lemma_first_selection(len: nat)
    requires
        0 < len <= usize::MAX,
    ensures
        iter_next(len, None, 1) == Some(0usize),
        iter_next(len, None, len + 1) == Some(0usize),
    decreases len,
{
    lemma_iter_next_unfold_front(len, 0);
    lemma_iter_next_unfold_front(len, len);
    lemma_wraparound_closure(len, 0);
}

/// Stepping `k + 1` times from an unset cursor is stepping `k` times from
/// the first item.
proof fn lemma_iter_next_unfold_front(len: nat, k: nat)
    requires
        0 < len <= usize::MAX,
    ensures
        iter_next(len, None, k + 1) == iter_next(len, Some(0usize), k),
    decreases k,
{
    if k == 0 {
        assert(iter_next(len, None, 0) == Option::<usize>::None);
        assert(iter_next(len, None, 1) == spec_next(len, iter_next(len, None, 0)));
        assert(iter_next(len, Some(0usize), 0) == Some(0usize));
    } else {
        lemma_iter_next_unfold_front(len, (k - 1) as nat);
        assert(iter_next(len, None, k + 1) == spec_next(len, iter_next(len, None, k)));
        assert(iter_next(len, Some(0usize), k) == spec_next(
            len,
            iter_next(len, Some(0usize), (k - 1) as nat),
        ));
    }
}

/// On an empty list navigation never sets the cursor.
pub proof fn lemma_empty_navigation(sel: Option<usize>)
    ensures
        spec_next(0, sel) is None,
        spec_previous(0, sel) is None,
{
}

} // verus!
