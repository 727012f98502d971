//! The lease table: one record per hardware address, never deleted; a
//! released lease keeps its row with the released flag set.

use vstd::prelude::*;

verus! {

#[derive(Clone, Copy, Debug, PartialEq, Eq, Structural)]
pub struct LeaseRecord {
    /// Hardware address, six bytes big-endian.
    pub mac: u64,
    pub ip: u32,
    pub released: bool,
}

#[derive(Clone, Copy, Debug, PartialEq, Eq, Structural)]
pub enum LeaseError {
    /// An active lease for the hardware address already exists.
    ActiveLeaseExists,
}

/// Whether some row of `s` belongs to `mac`.
pub open spec fn has_mac(s: Seq<LeaseRecord>, mac: u64) -> bool {
    exists|i: int| 0 <= i < s.len() && s[i].mac == mac
}

/// The row of `mac` in `s` (meaningful when `has_mac(s, mac)`).
pub open spec fn row_of(s: Seq<LeaseRecord>, mac: u64) -> int {
    choose|i: int| 0 <= i < s.len() && s[i].mac == mac
}

/// The address and released flag recorded for `mac`, if any.
pub open spec fn lookup(s: Seq<LeaseRecord>, mac: u64) -> Option<(u32, bool)> {
    if has_mac(s, mac) {
        Some((s[row_of(s, mac)].ip, s[row_of(s, mac)].released))
    } else {
        None
    }
}

/// Whether an active (not released) row holds `ip`.
pub open spec fn active_holds(s: Seq<LeaseRecord>, ip: u32) -> bool {
    exists|i: int| 0 <= i < s.len() && s[i].ip == ip && !s[i].released
}

/// Whether any row, active or released, names `ip`.
pub open spec fn any_holds(s: Seq<LeaseRecord>, ip: u32) -> bool {
    exists|i: int| 0 <= i < s.len() && s[i].ip == ip
}

/// `s` with the row of `r.mac` replaced by `r`, or `r` appended when the
/// address has no row yet.
pub open spec fn put(s: Seq<LeaseRecord>, r: LeaseRecord) -> Seq<LeaseRecord> {
    if has_mac(s, r.mac) {
        s.update(row_of(s, r.mac), r)
    } else {
        s.push(r)
    }
}

/// No two rows share a hardware address.
pub open spec fn unique_macs(s: Seq<LeaseRecord>) -> bool {
    forall|i: int, j: int| 0 <= i < s.len() && 0 <= j < s.len() && i != j ==> s[i].mac != s[j].mac
}

/// Writing a row keeps the addresses unique, makes it the row of its address,
/// and leaves the row of every other address as it was.
pub proof fn lemma_put(s: Seq<LeaseRecord>, r: LeaseRecord)
    requires
        unique_macs(s),
    ensures
        unique_macs(put(s, r)),
        lookup(put(s, r), r.mac) == Some((r.ip, r.released)),
        forall|m: u64| m != r.mac ==> lookup(put(s, r), m) == lookup(s, m),
{
    let t = put(s, r);
    if has_mac(s, r.mac) {
        let k = row_of(s, r.mac);
        assert(t[k] == r);
    } else {
        assert(t[s.len() as int] == r);
    }
    assert(has_mac(t, r.mac));
    let k2 = row_of(t, r.mac);
    assert forall|m: u64| m != r.mac implies lookup(t, m) == lookup(s, m) by {
        if has_mac(s, m) {
            let i = row_of(s, m);
            assert(t[i] == s[i]);
            assert(has_mac(t, m));
        }
        if has_mac(t, m) {
            let i = row_of(t, m);
            assert(t[i] == s[i]);
            assert(has_mac(s, m));
        }
    }
}

/// After a row is written, an address held actively is the written row's, or
/// was held actively before.
pub proof fn lemma_put_active(s: Seq<LeaseRecord>, r: LeaseRecord, x: u32)
    requires
        unique_macs(s),
    ensures
        active_holds(put(s, r), x) ==> (r.ip == x && !r.released) || active_holds(s, x),
{
    let t = put(s, r);
    if active_holds(t, x) {
        let i = choose|i: int| 0 <= i < t.len() && t[i].ip == x && !t[i].released;
        if t[i] != r {
            assert(t[i] == s[i]);
        }
    }
}

/// An active lease found by lookup is an active holder of its address.
pub proof fn lemma_lookup_active(s: Seq<LeaseRecord>, mac: u64)
    ensures
        lookup(s, mac) matches Some(p) ==> (!p.1 ==> active_holds(s, p.0)),
{
    if has_mac(s, mac) {
        let i = row_of(s, mac);
        assert(s[i].mac == mac);
    }
}

/// Looking up an address with no row finds nothing; after it is inserted, it
/// finds the inserted address, active.
pub proof fn lemma_select_after_insert(s: Seq<LeaseRecord>, mac: u64, ip: u32)
    requires
        unique_macs(s),
        !has_mac(s, mac),
    ensures
        lookup(s, mac).is_none(),
        lookup(put(s, LeaseRecord { mac, ip, released: false }), mac) == Some((ip, false)),
{
    lemma_put(s, LeaseRecord { mac, ip, released: false });
}

#[derive(Clone)]
pub struct LeaseStore {
    records: Vec<LeaseRecord>,
}

impl LeaseStore {
    pub closed spec fn view(&self) -> Seq<LeaseRecord> {
        self.records@
    }

    pub open spec fn wf(&self) -> bool {
        unique_macs(self@)
    }

    /// An empty table.
    pub fn new() -> (r: LeaseStore)
        ensures
            r@ == Seq::<LeaseRecord>::empty(),
            r.wf(),
    {
        LeaseStore { records: Vec::new() }
    }

    /// Every row, in the order they were created.
    pub fn records(&self) -> (r: &[LeaseRecord])
        ensures
            r@ == self@,
    {
        self.records.as_slice()
    }

    fn find_row(&self, mac: u64) -> (r: Option<usize>)
        requires
            self.wf(),
        ensures
            has_mac(self@, mac) ==> (r matches Some(i) && i < self@.len() && i == row_of(self@, mac)),
            !has_mac(self@, mac) ==> r.is_none(),
    {
        let mut i: usize = 0;
        while i < self.records.len()
            invariant
                0 <= i <= self@.len(),
                self.wf(),
                forall|j: int| 0 <= j < i ==> self@[j].mac != mac,
            decreases self@.len() - i,
        {
            if self.records[i].mac == mac {
                assert(has_mac(self@, mac));
                let ghost k = row_of(self@, mac);
                assert(self@[k].mac == mac);
                assert(k == i);
                return Some(i);
            }
            i = i + 1;
        }
        None
    }

    /// The address and released flag of the row of `mac`, whatever its state.
    pub fn select(&self, mac: u64) -> (r: Option<(u32, bool)>)
        requires
            self.wf(),
        ensures
            r == lookup(self@, mac),
    {
        match self.find_row(mac) {
            Some(i) => Some((self.records[i].ip, self.records[i].released)),
            None => None,
        }
    }

    fn put_row(&mut self, rec: LeaseRecord)
        requires
            old(self).wf(),
        ensures
            final(self)@ == put(old(self)@, rec),
            final(self).wf(),
    {
        proof {
            lemma_put(self@, rec);
        }
        match self.find_row(rec.mac) {
            Some(i) => {
                self.records.set(i, rec);
            },
            None => {
                self.records.push(rec);
            },
        }
    }

    /// Creates an active lease of `ip` for `mac`. Fails when `mac` already
    /// holds an active lease; a released row of `mac` is reused.
    pub fn insert(&mut self, mac: u64, ip: u32) -> (r: Result<(), LeaseError>)
        requires
            old(self).wf(),
        ensures
            final(self).wf(),
            (lookup(old(self)@, mac) matches Some(p) && !p.1) ==> r == Err::<(), LeaseError>(
                LeaseError::ActiveLeaseExists) && final(self)@ == old(self)@,
            !(lookup(old(self)@, mac) matches Some(p) && !p.1) ==> r is Ok && final(self)@ == put(
                old(self)@,
                LeaseRecord { mac, ip, released: false },
            ),
            r is Ok ==> lookup(final(self)@, mac) == Some((ip, false)),
            forall|m: u64| m != mac ==> lookup(final(self)@, m) == lookup(old(self)@, m),
    {
        proof {
            lemma_put(self@, LeaseRecord { mac, ip, released: false });
        }
        match self.select(mac) {
            Some((_, false)) => Err(LeaseError::ActiveLeaseExists),
            _ => {
                self.put_row(LeaseRecord { mac, ip, released: false });
                Ok(())
            },
        }
    }

    /// Sets the address and released flag of the row of `mac`; returns
    /// whether there was such a row (without one nothing changes).
    pub fn update(&mut self, mac: u64, ip: u32, released: bool) -> (r: bool)
        requires
            old(self).wf(),
        ensures
            final(self).wf(),
            r == has_mac(old(self)@, mac),
            r ==> final(self)@ == put(old(self)@, LeaseRecord { mac, ip, released }),
            !r ==> final(self)@ == old(self)@,
            r ==> lookup(final(self)@, mac) == Some((ip, released)),
            forall|m: u64| m != mac ==> lookup(final(self)@, m) == lookup(old(self)@, m),
    {
        proof {
            lemma_put(self@, LeaseRecord { mac, ip, released });
        }
        match self.find_row(mac) {
            Some(_) => {
                self.put_row(LeaseRecord { mac, ip, released });
                true
            },
            None => false,
        }
    }

    /// Whether an active row holds `ip`.
    pub fn has_active_ip(&self, ip: u32) -> (r: bool)
        ensures
            r == active_holds(self@, ip),
    {
        let mut i: usize = 0;
        while i < self.records.len()
            invariant
                0 <= i <= self@.len(),
                forall|j: int| 0 <= j < i ==> !(self@[j].ip == ip && !self@[j].released),
            decreases self@.len() - i,
        {
            if self.records[i].ip == ip && !self.records[i].released {
                return true;
            }
            i = i + 1;
        }
        false
    }

    /// Whether any row, active or released, names `ip`.
    pub fn has_ip(&self, ip: u32) -> (r: bool)
        ensures
            r == any_holds(self@, ip),
    {
        let mut i: usize = 0;
        while i < self.records.len()
            invariant
                0 <= i <= self@.len(),
                forall|j: int| 0 <= j < i ==> self@[j].ip != ip,
            decreases self@.len() - i,
        {
            if self.records[i].ip == ip {
                return true;
            }
            i = i + 1;
        }
        false
    }
}

/// The address recorded for `mac`, active or released.
pub fn select_entry(store: &LeaseStore, mac: u64) -> (r: Option<u32>)
    requires
        store.wf(),
    ensures
        r == (match lookup(store@, mac) {
            Some(p) => Some(p.0),
            None => None,
        }),
{
    match store.select(mac) {
        Some((ip, _)) => Some(ip),
        None => None,
    }
}

} // verus!
