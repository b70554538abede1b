//! The record model: one discovered address binding, tagged by address family.
//!
//! A binding pairs a host name with an address. Two bindings occupy the same
//! slot when they agree on address family and host name; a slot holds at most
//! one address at a time, the most recently applied one.

use vstd::prelude::*;

verus! {

/// An IP address as a plain value: a 32-bit word for IPv4, a 128-bit word
/// for IPv6 (network byte order, most significant byte first).
#[derive(Clone, Copy, PartialEq, Eq, Structural, Debug)]
pub enum IpAddress {
    V4(u32),
    V6(u128),
}

impl IpAddress {
    pub open spec fn is_v6(self) -> bool {
        self is V6
    }
}

/// One discovered fact: an address together with the host name that
/// advertised it, tagged by address family.
#[derive(Debug, PartialEq, Eq)]
pub enum RecordEntry {
    A(u32, String),
    AAAA(u128, String),
}

/// The slot a binding occupies: its address family and host name. A store
/// holds at most one binding per slot.
pub ghost struct SlotKey {
    pub v6: bool,
    pub name: Seq<char>,
}

/// The mathematical content of one entry: which address is bound to which
/// host name.
pub ghost struct Binding {
    pub addr: IpAddress,
    pub name: Seq<char>,
}

impl Binding {
    pub open spec fn key(self) -> SlotKey {
        SlotKey { v6: self.addr.is_v6(), name: self.name }
    }
}

impl RecordEntry {
    pub open spec fn spec_addr(self) -> IpAddress {
        match self {
            RecordEntry::A(a, _) => IpAddress::V4(a),
            RecordEntry::AAAA(a, _) => IpAddress::V6(a),
        }
    }

    pub open spec fn spec_name(self) -> Seq<char> {
        match self {
            RecordEntry::A(_, n) => n@,
            RecordEntry::AAAA(_, n) => n@,
        }
    }

    pub open spec fn spec_is_v6(self) -> bool {
        self is AAAA
    }

    pub open spec fn binding(self) -> Binding {
        Binding { addr: self.spec_addr(), name: self.spec_name() }
    }

    pub open spec fn key(self) -> SlotKey {
        SlotKey { v6: self.spec_is_v6(), name: self.spec_name() }
    }

    /// Classifies an address by family; pure, never fails.
    pub fn new(ip: IpAddress, name: String) -> (r: RecordEntry)
        ensures
            r == (match ip {
                IpAddress::V4(a) => RecordEntry::A(a, name),
                IpAddress::V6(a) => RecordEntry::AAAA(a, name),
            }),
            r.spec_addr() == ip,
            r.spec_name() == name@,
    {
        match ip {
            IpAddress::V4(a) => RecordEntry::A(a, name),
            IpAddress::V6(a) => RecordEntry::AAAA(a, name),
        }
    }

    pub fn get_name(&self) -> (r: &String)
        ensures
            r@ == self.spec_name(),
    {
        match self {
            RecordEntry::A(_, n) => n,
            RecordEntry::AAAA(_, n) => n,
        }
    }

    pub fn is_ipv4(&self) -> (r: bool)
        ensures
            r == !self.spec_is_v6(),
    {
        match self {
            RecordEntry::A(_, _) => true,
            RecordEntry::AAAA(_, _) => false,
        }
    }

    pub fn is_ipv6(&self) -> (r: bool)
        ensures
            r == self.spec_is_v6(),
    {
        match self {
            RecordEntry::A(_, _) => false,
            RecordEntry::AAAA(_, _) => true,
        }
    }

    pub fn get_addr(&self) -> (r: IpAddress)
        ensures
            r == self.spec_addr(),
    {
        match self {
            RecordEntry::A(a, _) => IpAddress::V4(*a),
            RecordEntry::AAAA(a, _) => IpAddress::V6(*a),
        }
    }
}

impl Clone for RecordEntry {
    fn clone(&self) -> (r: Self)
        ensures
            r == *self,
    {
        match self {
            RecordEntry::A(a, n) => RecordEntry::A(*a, n.clone()),
            RecordEntry::AAAA(a, n) => RecordEntry::AAAA(*a, n.clone()),
        }
    }
}

/// The key of each entry of a sequence is distinct: at most one binding per
/// (family, host name) slot.
pub open spec fn dedup_ok(s: Seq<RecordEntry>) -> bool {
    forall|i: int, j: int| 0 <= i < j < s.len() ==> s[i].key() != s[j].key()
}

/// The display order over addresses: IPv4 before IPv6, then numerically.
pub open spec fn ip_le(a: IpAddress, b: IpAddress) -> bool {
    match (a, b) {
        (IpAddress::V4(x), IpAddress::V4(y)) => x <= y,
        (IpAddress::V4(_), IpAddress::V6(_)) => true,
        (IpAddress::V6(_), IpAddress::V4(_)) => false,
        (IpAddress::V6(x), IpAddress::V6(y)) => x <= y,
    }
}

/// Entries stand in non-decreasing address order.
pub open spec fn sorted(s: Seq<RecordEntry>) -> bool {
    forall|i: int, j: int| 0 <= i < j < s.len() ==> ip_le(s[i].spec_addr(), s[j].spec_addr())
}

/// Which address each slot holds, with later entries overriding earlier ones.
pub open spec fn slot_map(s: Seq<RecordEntry>) -> Map<SlotKey, IpAddress>
    decreases s.len(),
{
    if s.len() == 0 {
        Map::empty()
    } else {
        slot_map(s.drop_last()).insert(s.last().key(), s.last().spec_addr())
    }
}

/// The set of bindings a sequence of entries carries, order forgotten.
pub open spec fn binding_set(s: Seq<RecordEntry>) -> Set<Binding> {
    Set::new(|b: Binding| exists|i: int| 0 <= i < s.len() && s[i].binding() == b)
}

/// Compares two addresses in the display order.
pub fn le_addr(a: IpAddress, b: IpAddress) -> (r: bool)
    ensures
        r == ip_le(a, b),
{
    match (a, b) {
        (IpAddress::V4(x), IpAddress::V4(y)) => x <= y,
        (IpAddress::V4(_), IpAddress::V6(_)) => true,
        (IpAddress::V6(_), IpAddress::V4(_)) => false,
        (IpAddress::V6(x), IpAddress::V6(y)) => x <= y,
    }
}

/// A sequence with every entry of the given slot evicted.
pub open spec fn evicted(s: Seq<RecordEntry>, k: SlotKey) -> Seq<RecordEntry>
    decreases s.len(),
{
    if s.len() == 0 {
        s
    } else {
        let rest = evicted(s.drop_last(), k);
        if s.last().key() == k {
            rest
        } else {
            rest.push(s.last())
        }
    }
}

/// An entry and its binding occupy the same slot.
pub proof fn lemma_key_of_binding(e: RecordEntry)
    ensures
        e.binding().key() == e.key(),
{
    match e {
        RecordEntry::A(_, _) => {},
        RecordEntry::AAAA(_, _) => {},
    }
}

/// The display order is total.
pub proof fn lemma_ip_le_total(a: IpAddress, b: IpAddress)
    ensures
        ip_le(a, b) || ip_le(b, a),
{
}

/// The display order is transitive.
pub proof fn lemma_ip_le_trans(a: IpAddress, b: IpAddress, c: IpAddress)
    requires
        ip_le(a, b),
        ip_le(b, c),
    ensures
        ip_le(a, c),
{
}

/// Concatenation at the entry level is union at the slot level, with the
/// right-hand side winning on common slots.
pub proof fn lemma_slot_map_concat(a: Seq<RecordEntry>, b: Seq<RecordEntry>)
    ensures
        slot_map(a + b) == slot_map(a).union_prefer_right(slot_map(b)),
    decreases b.len(),
{
    if b.len() == 0 {
        assert(a + b =~= a);
        assert(slot_map(a).union_prefer_right(slot_map(b)) =~= slot_map(a));
    } else {
        lemma_slot_map_concat(a, b.drop_last());
        assert((a + b).drop_last() =~= a + b.drop_last());
        assert(slot_map(a).union_prefer_right(slot_map(b.drop_last())).insert(
            b.last().key(),
            b.last().spec_addr(),
        ) =~= slot_map(a).union_prefer_right(
            slot_map(b.drop_last()).insert(b.last().key(), b.last().spec_addr()),
        ));
    }
}

/// Evicting a slot removes exactly that slot from the map.
pub proof fn lemma_evicted_slot_map(s: Seq<RecordEntry>, k: SlotKey)
    ensures
        slot_map(evicted(s, k)) == slot_map(s).remove(k),
    decreases s.len(),
{
    if s.len() == 0 {
        assert(slot_map(s).remove(k) =~= Map::<SlotKey, IpAddress>::empty());
    } else {
        lemma_evicted_slot_map(s.drop_last(), k);
        let e = s.last();
        let rest = evicted(s.drop_last(), k);
        if e.key() == k {
            assert(slot_map(s).remove(k) =~= slot_map(s.drop_last()).remove(k));
        } else {
            assert(rest.push(e).drop_last() =~= rest);
            assert(rest.push(e).last() == e);
            assert(slot_map(evicted(s, k)) == slot_map(rest).insert(e.key(), e.spec_addr()));
            assert(slot_map(s).remove(k) =~= slot_map(s.drop_last()).remove(k).insert(
                e.key(),
                e.spec_addr(),
            ));
        }
    }
}

/// Eviction keeps only entries of other slots, all of them drawn from the
/// original sequence, and preserves distinctness of slots.
pub proof fn lemma_evicted_props(s: Seq<RecordEntry>, k: SlotKey)
    ensures
        forall|i: int|
            0 <= i < evicted(s, k).len() ==> s.contains(#[trigger] evicted(s, k)[i])
                && evicted(s, k)[i].key() != k,
        dedup_ok(s) ==> dedup_ok(evicted(s, k)),
    decreases s.len(),
{
    if s.len() > 0 {
        lemma_evicted_props(s.drop_last(), k);
        let rest = evicted(s.drop_last(), k);
        let ev = evicted(s, k);
        assert forall|i: int|
            0 <= i < ev.len() implies s.contains(#[trigger] ev[i]) && ev[i].key() != k by {
            if i < rest.len() {
                assert(s.drop_last().contains(rest[i]));
                let i0 = choose|i0: int|
                    0 <= i0 < s.drop_last().len() && s.drop_last()[i0] == rest[i];
                assert(s[i0] == rest[i]);
            } else {
                assert(ev[i] == s.last());
                assert(s[s.len() - 1] == s.last());
            }
        }
        if dedup_ok(s) {
            assert(dedup_ok(s.drop_last())) by {
                assert(forall|i: int, j: int|
                    0 <= i < j < s.drop_last().len() ==> s.drop_last()[i] == s[i]
                        && s.drop_last()[j] == s[j]);
            }
            assert forall|i: int, j: int| 0 <= i < j < ev.len() implies ev[i].key() != ev[j].key()
            by {
                if j < rest.len() {
                    assert(dedup_ok(rest));
                } else {
                    assert(ev[j] == s.last());
                    assert(s.drop_last().contains(rest[i]));
                    let i0 = choose|i0: int|
                        0 <= i0 < s.drop_last().len() && s.drop_last()[i0] == rest[i];
                    assert(s[i0] == rest[i]);
                    assert(s[i0].key() != s[s.len() - 1].key());
                }
            }
        }
    }
}

/// In a slot-distinct sequence, the map holds exactly the entries' slots,
/// each bound to that entry's address.
pub proof fn lemma_slot_map_char(s: Seq<RecordEntry>)
    requires
        dedup_ok(s),
    ensures
        forall|i: int|
            0 <= i < s.len() ==> slot_map(s).contains_key((#[trigger] s[i]).key())
                && slot_map(s)[s[i].key()] == s[i].spec_addr(),
        forall|k: SlotKey|
            #[trigger] slot_map(s).contains_key(k) ==> exists|i: int|
                0 <= i < s.len() && (#[trigger] s[i]).key() == k,
    decreases s.len(),
{
    if s.len() > 0 {
        assert(dedup_ok(s.drop_last())) by {
            assert(forall|i: int, j: int|
                0 <= i < j < s.drop_last().len() ==> s.drop_last()[i] == s[i]
                    && s.drop_last()[j] == s[j]);
        }
        lemma_slot_map_char(s.drop_last());
        let m = slot_map(s);
        assert forall|i: int|
            0 <= i < s.len() implies m.contains_key((#[trigger] s[i]).key())
            && m[s[i].key()] == s[i].spec_addr() by {
            if i < s.len() - 1 {
                assert(s.drop_last()[i] == s[i]);
                assert(s[i].key() != s[s.len() - 1].key());
            } else {
                assert(s[i] == s.last());
            }
        }
        assert forall|k: SlotKey| #[trigger] m.contains_key(k) implies exists|i: int|
            0 <= i < s.len() && (#[trigger] s[i]).key() == k by {
            if k == s.last().key() {
                assert(s[s.len() - 1].key() == k);
            } else {
                assert(slot_map(s.drop_last()).contains_key(k));
                let i = choose|i: int|
                    0 <= i < s.drop_last().len() && (#[trigger] s.drop_last()[i]).key() == k;
                assert(s[i].key() == k);
            }
        }
    }
}

/// Two slot-distinct sequences with the same bindings induce the same map.
pub proof fn lemma_bindings_determine_map(s1: Seq<RecordEntry>, s2: Seq<RecordEntry>)
    requires
        dedup_ok(s1),
        dedup_ok(s2),
        binding_set(s1) == binding_set(s2),
    ensures
        slot_map(s1) == slot_map(s2),
{
    lemma_slot_map_char(s1);
    lemma_slot_map_char(s2);
    assert forall|k: SlotKey|
        slot_map(s1).contains_key(k) implies slot_map(s2).contains_key(k)
        && slot_map(s2)[k] == slot_map(s1)[k] by {
        let i = choose|i: int| 0 <= i < s1.len() && (#[trigger] s1[i]).key() == k;
        assert(binding_set(s1).contains(s1[i].binding()));
        assert(binding_set(s2).contains(s1[i].binding()));
        let j = choose|j: int| 0 <= j < s2.len() && (#[trigger] s2[j]).binding() == s1[i].binding();
        lemma_key_of_binding(s1[i]);
        lemma_key_of_binding(s2[j]);
        assert(s2[j].key() == k);
    }
    assert forall|k: SlotKey|
        slot_map(s2).contains_key(k) implies slot_map(s1).contains_key(k) by {
        let j = choose|j: int| 0 <= j < s2.len() && (#[trigger] s2[j]).key() == k;
        assert(binding_set(s2).contains(s2[j].binding()));
        assert(binding_set(s1).contains(s2[j].binding()));
        let i = choose|i: int| 0 <= i < s1.len() && (#[trigger] s1[i]).binding() == s2[j].binding();
        lemma_key_of_binding(s1[i]);
        lemma_key_of_binding(s2[j]);
        assert(s1[i].key() == k);
    }
    assert(slot_map(s1) =~= slot_map(s2));
}

/// Two slot-distinct sequences with the same map carry the same bindings.
pub proof fn lemma_map_determines_bindings(s1: Seq<RecordEntry>, s2: Seq<RecordEntry>)
    requires
        dedup_ok(s1),
        dedup_ok(s2),
        slot_map(s1) == slot_map(s2),
    ensures
        binding_set(s1) == binding_set(s2),
{
    lemma_slot_map_char(s1);
    lemma_slot_map_char(s2);
    assert forall|b: Binding| binding_set(s1).contains(b) implies binding_set(s2).contains(b) by {
        let i = choose|i: int| 0 <= i < s1.len() && (#[trigger] s1[i]).binding() == b;
        lemma_key_of_binding(s1[i]);
        assert(slot_map(s2).contains_key(b.key()));
        let j = choose|j: int| 0 <= j < s2.len() && (#[trigger] s2[j]).key() == b.key();
        lemma_key_of_binding(s2[j]);
        assert(s2[j].spec_addr() == slot_map(s2)[b.key()]);
        assert(s2[j].binding() == b);
    }
    assert forall|b: Binding| binding_set(s2).contains(b) implies binding_set(s1).contains(b) by {
        let j = choose|j: int| 0 <= j < s2.len() && (#[trigger] s2[j]).binding() == b;
        lemma_key_of_binding(s2[j]);
        assert(slot_map(s1).contains_key(b.key()));
        let i = choose|i: int| 0 <= i < s1.len() && (#[trigger] s1[i]).key() == b.key();
        lemma_key_of_binding(s1[i]);
        assert(s1[i].spec_addr() == slot_map(s1)[b.key()]);
        assert(s1[i].binding() == b);
    }
    assert(binding_set(s1) =~= binding_set(s2));
}

/// Inserting one entry adds exactly its binding to the carried set.
pub proof fn lemma_binding_set_insert(s: Seq<RecordEntry>, pos: int, e: RecordEntry)
    requires
        0 <= pos <= s.len(),
    ensures
        binding_set(s.insert(pos, e)) == binding_set(s).insert(e.binding()),
{
    let t = s.insert(pos, e);
    assert forall|b: Binding|
        binding_set(t).contains(b) implies binding_set(s).insert(e.binding()).contains(b) by {
        let j = choose|j: int| 0 <= j < t.len() && (#[trigger] t[j]).binding() == b;
        if j < pos {
            assert(s[j] == t[j]);
        } else if j == pos {
            assert(t[j] == e);
        } else {
            assert(s[j - 1] == t[j]);
        }
    }
    assert forall|b: Binding|
        binding_set(s).insert(e.binding()).contains(b) implies binding_set(t).contains(b) by {
        if b == e.binding() {
            assert(t[pos] == e);
        } else {
            let i = choose|i: int| 0 <= i < s.len() && (#[trigger] s[i]).binding() == b;
            if i < pos {
                assert(t[i] == s[i]);
            } else {
                assert(t[i + 1] == s[i]);
            }
        }
    }
    assert(binding_set(t) =~= binding_set(s).insert(e.binding()));
}

} // verus!
