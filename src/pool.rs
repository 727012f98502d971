//! The pool of addresses that are free to be leased.

use vstd::prelude::*;

verus! {

/// `s` without `x`, when it holds `x`.
pub open spec fn without(s: Seq<u32>, x: u32) -> Seq<u32> {
    if s.contains(x) {
        s.remove(s.index_of(x))
    } else {
        s
    }
}

/// Taking a value out keeps the others, adds none, and keeps the sequence free
/// of duplicates.
pub proof fn lemma_without(s: Seq<u32>, x: u32)
    requires
        s.no_duplicates(),
    ensures
        without(s, x).no_duplicates(),
        !without(s, x).contains(x),
        forall|y: u32| #[trigger] without(s, x).contains(y) <==> (s.contains(y) && y != x),
{
    if s.contains(x) {
        let k = s.index_of(x);
        let t = s.remove(k);
        assert forall|y: u32| #[trigger] t.contains(y) <==> (s.contains(y) && y != x) by {
            if t.contains(y) {
                let j = choose|j: int| 0 <= j < t.len() && t[j] == y;
                if j < k {
                    assert(s[j] == y);
                } else {
                    assert(s[j + 1] == y);
                }
            }
            if s.contains(y) && y != x {
                let j = choose|j: int| 0 <= j < s.len() && s[j] == y;
                if j < k {
                    assert(t[j] == y);
                } else {
                    assert(j != k);
                    assert(t[j - 1] == y);
                }
            }
        }
        assert forall|i: int, j: int| 0 <= i < t.len() && 0 <= j < t.len() && i != j implies t[i]
            != t[j] by {
            let i2 = if i < k { i } else { i + 1 };
            let j2 = if j < k { j } else { j + 1 };
            assert(t[i] == s[i2] && t[j] == s[j2]);
        }
    }
}

/// Dropping the last value keeps the others and adds none.
pub proof fn lemma_drop_last(s: Seq<u32>)
    requires
        s.no_duplicates(),
        s.len() > 0,
    ensures
        s.drop_last().no_duplicates(),
        forall|y: u32| #[trigger] s.drop_last().contains(y) ==> s.contains(y),
{
    assert forall|y: u32| #[trigger] s.drop_last().contains(y) implies s.contains(y) by {
        let j = choose|j: int| 0 <= j < s.drop_last().len() && s.drop_last()[j] == y;
        assert(s[j] == y);
    }
}

/// Free addresses, without duplicates. Addresses are taken from the end of the
/// sequence and returned at its front, so a freed address is served last.
#[derive(Clone)]
pub struct AddressPool {
    addrs: Vec<u32>,
}

impl AddressPool {
    pub closed spec fn view(&self) -> Seq<u32> {
        self.addrs@
    }

    pub open spec fn wf(&self) -> bool {
        self@.no_duplicates()
    }

    /// The pool holding `addrs`, the last one served first.
    pub fn from_vec(addrs: Vec<u32>) -> (r: AddressPool)
        ensures
            r@ == addrs@,
    {
        AddressPool { addrs }
    }

    pub fn len(&self) -> (r: usize)
        ensures
            r == self@.len(),
    {
        self.addrs.len()
    }

    /// Whether `ip` is free in the pool.
    pub fn contains(&self, ip: u32) -> (r: bool)
        ensures
            r == self@.contains(ip),
    {
        let mut i: usize = 0;
        while i < self.addrs.len()
            invariant
                0 <= i <= self@.len(),
                forall|j: int| 0 <= j < i ==> self@[j] != ip,
            decreases self@.len() - i,
        {
            if self.addrs[i] == ip {
                return true;
            }
            i = i + 1;
        }
        false
    }

    /// Removes and returns the address served next, if any.
    pub fn pick_available_ip(&mut self) -> (r: Option<u32>)
        requires
            old(self).wf(),
        ensures
            final(self).wf(),
            old(self)@.len() == 0 ==> r.is_none() && final(self)@ == old(self)@,
            old(self)@.len() > 0 ==> r == Some(old(self)@.last()) && final(self)@
                == old(self)@.drop_last(),
    {
        proof {
            if self@.len() > 0 {
                lemma_drop_last(self@);
            }
        }
        self.addrs.pop()
    }

    /// Removes `requested_ip` from the pool and returns it, or `None` when it
    /// is not free.
    pub fn pick_specified_ip(&mut self, requested_ip: u32) -> (r: Option<u32>)
        requires
            old(self).wf(),
        ensures
            final(self).wf(),
            final(self)@ == without(old(self)@, requested_ip),
            old(self)@.contains(requested_ip) ==> r == Some(requested_ip),
            !old(self)@.contains(requested_ip) ==> r.is_none(),
    {
        proof {
            lemma_without(self@, requested_ip);
        }
        let mut i: usize = 0;
        while i < self.addrs.len()
            invariant
                0 <= i <= self@.len(),
                self@ == old(self)@,
                self.wf(),
                forall|j: int| 0 <= j < i ==> self@[j] != requested_ip,
            decreases self@.len() - i,
        {
            if self.addrs[i] == requested_ip {
                proof {
                    let k = self@.index_of(requested_ip);
                    assert(self@.contains(requested_ip));
                    assert(self@[k] == requested_ip);
                    assert(k == i);
                }
                let ip = self.addrs.remove(i);
                return Some(ip);
            }
            i = i + 1;
        }
        None
    }

    /// Returns `released_ip` to the pool, at the end served last.
    pub fn release_address(&mut self, released_ip: u32)
        requires
            old(self).wf(),
            !old(self)@.contains(released_ip),
        ensures
            final(self).wf(),
            final(self)@ == seq![released_ip] + old(self)@,
    {
        self.addrs.insert(0, released_ip);
        assert(self@ =~= seq![released_ip] + old(self)@);
        proof {
            let t = self@;
            let o = old(self)@;
            assert forall|i: int, j: int| 0 <= i < t.len() && 0 <= j < t.len() && i != j implies t[i]
                != t[j] by {
                if i == 0 {
                    assert(t[j] == o[j - 1]);
                } else if j == 0 {
                    assert(t[i] == o[i - 1]);
                } else {
                    assert(t[i] == o[i - 1] && t[j] == o[j - 1]);
                }
            }
        }
    }
}

/// Picking an address and returning it at once leaves the pool as large as
/// before, and while other addresses remain it is not the one served next.
pub proof fn lemma_pick_then_release(s: Seq<u32>)
    requires
        s.no_duplicates(),
        s.len() > 0,
    ensures
        (seq![s.last()] + s.drop_last()).len() == s.len(),
        s.len() > 1 ==> (seq![s.last()] + s.drop_last()).last() != s.last(),
        (seq![s.last()] + s.drop_last()).no_duplicates(),
{
    let t = seq![s.last()] + s.drop_last();
    if s.len() > 1 {
        assert(t.last() == s[s.len() - 2]);
    }
    assert forall|i: int, j: int| 0 <= i < t.len() && 0 <= j < t.len() && i != j implies t[i]
        != t[j] by {
        if i == 0 {
            assert(t[j] == s[j - 1]);
        } else if j == 0 {
            assert(t[i] == s[i - 1]);
        } else {
            assert(t[i] == s[i - 1] && t[j] == s[j - 1]);
        }
    }
}

} // verus!
