//! The registry of monitored addresses: one monitor per address, in the
//! order in which the addresses were added.
use vstd::prelude::*;

use crate::address::Address;
use crate::target::Target;

verus! {

/// The addresses of a registry's entries, in order.
pub open spec fn addresses_of<P>(entries: Seq<(Address, P)>) -> Seq<Address> {
    entries.map_values(|e: (Address, P)| e.0)
}

/// No address occurs twice among the entries.
pub open spec fn distinct_addresses<P>(entries: Seq<(Address, P)>) -> bool {
    forall|i: int, j: int|
        0 <= i < j < entries.len() ==> #[trigger] entries[i].0 != #[trigger] entries[j].0
}

/// The monitor registered for `addr`, if any.
pub open spec fn lookup<P>(entries: Seq<(Address, P)>, addr: Address) -> Option<P> {
    if exists|i: int| 0 <= i < entries.len() && #[trigger] entries[i].0 == addr {
        Some(entries[choose|i: int| 0 <= i < entries.len() && #[trigger] entries[i].0 == addr].1)
    } else {
        None
    }
}

/// The entries after registering `monitor` for `addr`: unchanged when `addr`
/// is registered already, else with the new entry appended.
pub open spec fn with_added<P>(entries: Seq<(Address, P)>, addr: Address, monitor: P) -> Seq<
    (Address, P),
> {
    if addresses_of(entries).contains(addr) {
        entries
    } else {
        entries.push((addr, monitor))
    }
}

/// Keeps one monitor (of type `P`) per address.
pub struct Engine<P> {
    pingers: Vec<(Address, P)>,
}

impl<P> Engine<P> {
    #[verifier::type_invariant]
    spec fn keys_distinct(self) -> bool {
        distinct_addresses(self.pingers@)
    }

    /// The entries, oldest first.
    pub closed spec fn entries(self) -> Seq<(Address, P)> {
        self.pingers@
    }
}

impl<P> View for Engine<P> {
    type V = Seq<(Address, P)>;

    closed spec fn view(&self) -> Seq<(Address, P)> {
        self.entries()
    }
}

proof fn lemma_lookup_at<P>(entries: Seq<(Address, P)>, i: int)
    requires
        distinct_addresses(entries),
        0 <= i < entries.len(),
    ensures
        lookup(entries, entries[i].0) == Some(entries[i].1),
{
    let a = entries[i].0;
    assert(exists|k: int| 0 <= k < entries.len() && #[trigger] entries[k].0 == a);
    let j = choose|k: int| 0 <= k < entries.len() && #[trigger] entries[k].0 == a;
    if j < i {
        assert(entries[j].0 != entries[i].0);
    } else if i < j {
        assert(entries[i].0 != entries[j].0);
    }
}

proof fn lemma_contains_iff<P>(entries: Seq<(Address, P)>, addr: Address)
    ensures
        addresses_of(entries).contains(addr) <==> exists|i: int|
            0 <= i < entries.len() && #[trigger] entries[i].0 == addr,
{
    if addresses_of(entries).contains(addr) {
        let i = choose|i: int|
            0 <= i < addresses_of(entries).len() && addresses_of(entries)[i] == addr;
        assert(entries[i].0 == addr);
    }
    if exists|i: int| 0 <= i < entries.len() && #[trigger] entries[i].0 == addr {
        let i = choose|i: int| 0 <= i < entries.len() && #[trigger] entries[i].0 == addr;
        assert(addresses_of(entries)[i] == addr);
    }
}

impl<P> Engine<P> {
    /// An engine with no monitors.
    pub fn new() -> (e: Self)
        ensures
            e@ == Seq::<(Address, P)>::empty(),
    {
        let pingers = Vec::new();
        Engine { pingers }
    }

    /// Registers a monitor for the target's address, made by `make` from the
    /// target, unless that address has one already; then nothing changes and
    /// `make` is not called.
    pub fn add<F: FnOnce(Target) -> P>(&mut self, target: Target, make: F)
        requires
            make.requires((target,)),
        ensures
            distinct_addresses(final(self)@),
            final(self)@ == with_added(old(self)@, target@.address, final(self)@.last().1),
            addresses_of(old(self)@).contains(target@.address) ==> final(self)@ == old(self)@,
            !addresses_of(old(self)@).contains(target@.address) ==> {
                &&& final(self)@ == old(self)@.push((target@.address, final(self)@.last().1))
                &&& make.ensures((target,), final(self)@.last().1)
            },
    {
        proof {
            use_type_invariant(&*self);
            lemma_contains_iff(self@, target@.address);
        }
        let addr = target.addr();
        let n = self.pingers.len();
        let mut i: usize = 0;
        while i < n
            invariant
                n == self.pingers@.len(),
                0 <= i <= n,
                addr == target@.address,
                self.pingers@ == old(self)@,
                distinct_addresses(self.pingers@),
                make.requires((target,)),
                addresses_of(old(self)@).contains(addr) <==> exists|k: int|
                    0 <= k < old(self)@.len() && #[trigger] old(self)@[k].0 == addr,
                forall|k: int| 0 <= k < i ==> #[trigger] self.pingers@[k].0 != addr,
            decreases n - i,
        {
            if self.pingers[i].0 == addr {
                return;
            }
            i = i + 1;
        }
        let monitor = make(target);
        let mut pingers = Vec::new();
        std::mem::swap(&mut pingers, &mut self.pingers);
        let ghost before = pingers@;
        pingers.push((addr, monitor));
        proof {
            assert(pingers@ == before.push((addr, monitor)));
            assert forall|j: int, k: int| 0 <= j < k < pingers@.len() implies
                #[trigger] pingers@[j].0 != #[trigger] pingers@[k].0 by {
                if k == before.len() {
                    assert(before[j].0 != addr);
                } else {
                    assert(pingers@[j] == before[j]);
                    assert(pingers@[k] == before[k]);
                }
            }
        }
        self.pingers = pingers;
    }

    /// The monitor registered for `addr`, if any.
    pub fn get(&self, addr: &Address) -> (r: Option<&P>)
        ensures
            distinct_addresses(self@),
            match r {
                Some(p) => lookup(self@, *addr) == Some(*p),
                None => lookup(self@, *addr) is None,
            },
    {
        proof {
            use_type_invariant(self);
        }
        let n = self.pingers.len();
        let mut i: usize = 0;
        while i < n
            invariant
                n == self.pingers@.len(),
                0 <= i <= n,
                distinct_addresses(self.pingers@),
                forall|k: int| 0 <= k < i ==> #[trigger] self.pingers@[k].0 != *addr,
            decreases n - i,
        {
            if self.pingers[i].0 == *addr {
                proof {
                    lemma_lookup_at(self.pingers@, i as int);
                }
                return Some(&self.pingers[i].1);
            }
            i = i + 1;
        }
        None
    }

    /// The registered addresses, each once, in the order they were added.
    pub fn get_addresses(&self) -> (r: Vec<Address>)
        ensures
            r@ == addresses_of(self@),
            distinct_addresses(self@),
    {
        proof {
            use_type_invariant(self);
        }
        let n = self.pingers.len();
        let mut r: Vec<Address> = Vec::new();
        let mut i: usize = 0;
        while i < n
            invariant
                n == self.pingers@.len(),
                0 <= i <= n,
                r@ == addresses_of(self.pingers@).take(i as int),
            decreases n - i,
        {
            r.push(self.pingers[i].0);
            i = i + 1;
            proof {
                assert(r@ =~= addresses_of(self.pingers@).take(i as int));
            }
        }
        proof {
            assert(addresses_of(self.pingers@).take(n as int) =~= addresses_of(self.pingers@));
        }
        r
    }
}

/// Law: registering an address that is registered already changes nothing.
pub proof fn lemma_add_idempotent<P>(entries: Seq<(Address, P)>, addr: Address, first: P, second: P)
    ensures
        with_added(with_added(entries, addr, first), addr, second) == with_added(
            entries,
            addr,
            first,
        ),
{
    let once = with_added(entries, addr, first);
    if !addresses_of(entries).contains(addr) {
        assert(addresses_of(once)[entries.len() as int] == addr);
    }
}

/// Law: registering keeps every address unique, after it the address has a
/// monitor (the new one when the address was not registered before, the old
/// one otherwise), and the monitors of all other addresses stay as they were.
pub proof fn lemma_add_then_lookup<P>(
    entries: Seq<(Address, P)>,
    addr: Address,
    monitor: P,
    other: Address,
)
    requires
        distinct_addresses(entries),
        other != addr,
    ensures
        distinct_addresses(with_added(entries, addr, monitor)),
        !addresses_of(entries).contains(addr) ==> lookup(with_added(entries, addr, monitor), addr)
            == Some(monitor),
        addresses_of(entries).contains(addr) ==> lookup(with_added(entries, addr, monitor), addr)
            == lookup(entries, addr),
        lookup(with_added(entries, addr, monitor), other) == lookup(entries, other),
{
    lemma_contains_iff(entries, addr);
    let after = with_added(entries, addr, monitor);
    if !addresses_of(entries).contains(addr) {
        assert forall|j: int, k: int| 0 <= j < k < after.len() implies #[trigger] after[j].0
            != #[trigger] after[k].0 by {
            if k == entries.len() {
                assert(entries[j].0 != addr);
            } else {
                assert(after[j] == entries[j]);
                assert(after[k] == entries[k]);
            }
        }
        lemma_lookup_at(after, entries.len() as int);
        if exists|i: int| 0 <= i < entries.len() && #[trigger] entries[i].0 == other {
            let i = choose|i: int| 0 <= i < entries.len() && #[trigger] entries[i].0 == other;
            lemma_lookup_at(entries, i);
            assert(after[i] == entries[i]);
            lemma_lookup_at(after, i);
        } else {
            assert forall|i: int| 0 <= i < after.len() implies #[trigger] after[i].0 != other by {
                if i < entries.len() {
                    assert(after[i] == entries[i]);
                }
            }
        }
    }
}

/// Every entry's monitor stands in relation `made_for` to its address.
pub open spec fn monitors_made_for<P>(entries: Seq<(Address, P)>, made_for: spec_fn(Address, P) -> bool) -> bool {
    forall|i: int| 0 <= i < entries.len() ==> #[trigger] made_for(entries[i].0, entries[i].1)
}

/// Law: when each monitor is made for the address it is registered under
/// (whatever relation `made_for` expresses that, such as "is the target with
/// that address"), this holds over the whole history of registrations: it
/// holds of the empty registry and registering keeps it.
pub proof fn lemma_add_keeps_monitors_made_for<P>(
    entries: Seq<(Address, P)>,
    addr: Address,
    monitor: P,
    made_for: spec_fn(Address, P) -> bool,
)
    requires
        monitors_made_for(entries, made_for),
        made_for(addr, monitor),
    ensures
        monitors_made_for(Seq::<(Address, P)>::empty(), made_for),
        monitors_made_for(with_added(entries, addr, monitor), made_for),
{
    let after = with_added(entries, addr, monitor);
    assert forall|i: int| 0 <= i < after.len() implies #[trigger] made_for(after[i].0, after[i].1) by {
        if i < entries.len() {
            assert(after[i] == entries[i]);
        }
    }
}

/// Law: in a registry whose monitors are made for their addresses, the
/// monitor found for an address is made for it.
pub proof fn lemma_lookup_made_for<P>(
    entries: Seq<(Address, P)>,
    addr: Address,
    made_for: spec_fn(Address, P) -> bool,
)
    requires
        monitors_made_for(entries, made_for),
    ensures
        lookup(entries, addr) matches Some(p) ==> made_for(addr, p),
{
    if exists|i: int| 0 <= i < entries.len() && #[trigger] entries[i].0 == addr {
        let j = choose|i: int| 0 <= i < entries.len() && #[trigger] entries[i].0 == addr;
        assert(made_for(entries[j].0, entries[j].1));
    }
}

impl<P> Default for Engine<P> {
    fn default() -> (e: Self)
        ensures
            e@ == Seq::<(Address, P)>::empty(),
    {
        Self::new()
    }
}

} // verus!
