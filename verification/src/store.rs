//! The record store: an ordered, slot-distinct collection of discovered
//! bindings, mutated only by applying incoming batches or by clearing.
//!
//! Contents are modelled by [`slot_map`]: which address each (family, host
//! name) slot holds, with later applications overriding earlier ones.

use vstd::prelude::*;

use crate::record::dedup_ok;
use crate::record::evicted;
use crate::record::ip_le;
use crate::record::le_addr;
use crate::record::lemma_bindings_determine_map;
use crate::record::lemma_binding_set_insert;
use crate::record::lemma_evicted_props;
use crate::record::lemma_evicted_slot_map;
use crate::record::lemma_ip_le_total;
use crate::record::lemma_ip_le_trans;
use crate::record::lemma_key_of_binding;
use crate::record::lemma_map_determines_bindings;
use crate::record::lemma_slot_map_concat;
use crate::record::binding_set;
use crate::record::slot_map;
use crate::record::sorted;
use crate::record::IpAddress;
use crate::record::RecordEntry;
use crate::record::SlotKey;

verus! {

/// The most recently applied address of the given family for the given host
/// name, if any entry for that slot is present.
pub open spec fn last_bound(s: Seq<RecordEntry>, v6: bool, name: Seq<char>) -> Option<IpAddress>
    decreases s.len(),
{
    if s.len() == 0 {
        None
    } else if s.last().spec_is_v6() == v6 && s.last().spec_name() == name {
        Some(s.last().spec_addr())
    } else {
        last_bound(s.drop_last(), v6, name)
    }
}

/// The host names of a sequence of entries, in first-seen order, each once.
pub open spec fn distinct_names(s: Seq<RecordEntry>) -> Seq<Seq<char>>
    decreases s.len(),
{
    if s.len() == 0 {
        Seq::empty()
    } else {
        let rest = distinct_names(s.drop_last());
        if rest.contains(s.last().spec_name()) {
            rest
        } else {
            rest.push(s.last().spec_name())
        }
    }
}

/// The aggregate collection of discovered bindings.
pub struct RecordEntries {
    entries: Vec<RecordEntry>,
}

impl View for RecordEntries {
    type V = Seq<RecordEntry>;

    closed spec fn view(&self) -> Seq<RecordEntry> {
        self.entries@
    }
}

impl RecordEntries {
    /// Well-formed: at most one binding per slot, entries in display order.
    pub open spec fn wf(self) -> bool {
        dedup_ok(self@) && sorted(self@)
    }

    /// A scan starts with an empty store.
    pub fn new() -> (r: RecordEntries)
        ensures
            r@ == Seq::<RecordEntry>::empty(),
            r.wf(),
    {
        RecordEntries { entries: Vec::new() }
    }

    /// Empties the store at once, so that stale results of a finished scan
    /// disappear before any new data arrives.
    pub fn clear(&mut self)
        ensures
            final(self)@ == Seq::<RecordEntry>::empty(),
            final(self).wf(),
    {
        self.entries.clear();
    }

    /// A read-consistent copy of the whole collection.
    pub fn snapshot(&self) -> (r: RecordEntries)
        ensures
            r@ == self@,
    {
        let mut out: Vec<RecordEntry> = Vec::new();
        let mut i: usize = 0;
        while i < self.entries.len()
            invariant
                i <= self.entries@.len(),
                out@ == self.entries@.take(i as int),
            decreases self.entries@.len() - i,
        {
            out.push(self.entries[i].clone());
            proof {
                assert(self.entries@.take(i as int).push(self.entries@[i as int]) =~= self
                    .entries@.take(i as int + 1));
            }
            i += 1;
        }
        proof {
            assert(self.entries@.take(self.entries@.len() as int) =~= self.entries@);
        }
        RecordEntries { entries: out }
    }

    /// The entries in display order, for rendering.
    pub fn entries(&self) -> (r: &Vec<RecordEntry>)
        ensures
            r@ == self@,
    {
        &self.entries
    }

    /// For each binding of the batch in turn, evicts any binding of the same
    /// slot and inserts the new one; then restores display order. Every slot
    /// of the batch ends up bound to the last address the batch gave it, and
    /// every other slot keeps its address.
    pub fn apply(&mut self, batch: Vec<RecordEntry>)
        requires
            old(self).wf(),
        ensures
            final(self).wf(),
            slot_map(final(self)@) == slot_map(old(self)@ + batch@),
    {
        let mut batch = batch;
        let ghost init = self.entries@;
        let ghost batch0 = batch@;
        let ghost mut done: Seq<RecordEntry> = Seq::empty();
        proof {
            assert(done + batch@ =~= batch0);
        }
        while batch.len() > 0
            invariant
                dedup_ok(self.entries@),
                slot_map(self.entries@) == slot_map(init + done),
                done + batch@ == batch0,
            decreases batch@.len(),
        {
            let ghost prev_done = done;
            let ghost prev_batch = batch@;
            let e = batch.remove(0);
            let ghost cur = self.entries@;
            let v6 = e.is_ipv6();
            let filtered = retained(&self.entries, v6, e.get_name());
            self.entries = filtered;
            self.entries.push(e);
            proof {
                let ghost k = e.key();
                let ev = evicted(cur, k);
                lemma_evicted_props(cur, k);
                lemma_evicted_slot_map(cur, k);
                assert(self.entries@ == ev.push(e));
                assert forall|i: int, j: int|
                    0 <= i < j < self.entries@.len() implies self.entries@[i].key() != self
                    .entries@[j].key() by {
                    if j == self.entries@.len() - 1 {
                        assert(self.entries@[i] == ev[i]);
                        assert(ev[i].key() != k);
                    } else {
                        assert(self.entries@[i] == ev[i]);
                        assert(self.entries@[j] == ev[j]);
                    }
                }
                assert(ev.push(e).drop_last() =~= ev);
                assert(slot_map(self.entries@) == slot_map(ev).insert(k, e.spec_addr()));
                assert(slot_map(cur).remove(k).insert(k, e.spec_addr()) =~= slot_map(cur).insert(
                    k,
                    e.spec_addr(),
                ));
                done = prev_done.push(e);
                assert((init + prev_done).push(e) =~= init + done);
                assert((init + prev_done).push(e).drop_last() =~= init + prev_done);
                assert(slot_map(init + done) == slot_map(init + prev_done).insert(
                    k,
                    e.spec_addr(),
                ));
                assert(done + batch@ =~= prev_done + prev_batch);
            }
        }
        proof {
            assert(done =~= done + batch@);
            assert(done == batch0);
        }
        let in_order = sorted_copy(&self.entries);
        proof {
            lemma_bindings_determine_map(in_order@, self.entries@);
        }
        self.entries = in_order;
    }

    /// The most recently applied IPv4 and IPv6 bindings for the host name,
    /// absent where none is recorded.
    pub fn find(&self, name: &String) -> (r: (Option<IpAddress>, Option<IpAddress>))
        ensures
            r.0 == last_bound(self@, false, name@),
            r.1 == last_bound(self@, true, name@),
    {
        let mut v4: Option<IpAddress> = None;
        let mut v6: Option<IpAddress> = None;
        let mut i: usize = 0;
        while i < self.entries.len()
            invariant
                i <= self.entries@.len(),
                v4 == last_bound(self.entries@.take(i as int), false, name@),
                v6 == last_bound(self.entries@.take(i as int), true, name@),
            decreases self.entries@.len() - i,
        {
            let e = &self.entries[i];
            if e.get_name().eq(name) {
                if e.is_ipv6() {
                    v6 = Some(e.get_addr());
                } else {
                    v4 = Some(e.get_addr());
                }
            }
            proof {
                assert(self.entries@.take(i as int + 1).drop_last() =~= self.entries@.take(
                    i as int,
                ));
                assert(self.entries@.take(i as int + 1).last() == self.entries@[i as int]);
            }
            i += 1;
        }
        proof {
            assert(self.entries@.take(self.entries@.len() as int) =~= self.entries@);
        }
        (v4, v6)
    }

    /// One host name per display row: first-seen order, each name once.
    pub fn distinct_host_names(&self) -> (r: Vec<String>)
        ensures
            r.deep_view() == distinct_names(self@),
    {
        let mut out: Vec<String> = Vec::new();
        let mut i: usize = 0;
        while i < self.entries.len()
            invariant
                i <= self.entries@.len(),
                out.deep_view() == distinct_names(self.entries@.take(i as int)),
            decreases self.entries@.len() - i,
        {
            let ghost prev = out.deep_view();
            let name = self.entries[i].get_name();
            if !contains_name(&out, name) {
                out.push(name.clone());
                proof {
                    assert(out.deep_view() =~= prev.push(name@));
                }
            }
            proof {
                assert(self.entries@.take(i as int + 1).drop_last() =~= self.entries@.take(
                    i as int,
                ));
                assert(self.entries@.take(i as int + 1).last() == self.entries@[i as int]);
            }
            i += 1;
        }
        proof {
            assert(self.entries@.take(self.entries@.len() as int) =~= self.entries@);
        }
        out
    }
}

/// Whether one of the collected names is this name.
fn contains_name(v: &Vec<String>, name: &String) -> (r: bool)
    ensures
        r == v.deep_view().contains(name@),
{
    let mut i: usize = 0;
    while i < v.len()
        invariant
            i <= v@.len(),
            forall|j: int| 0 <= j < i ==> (#[trigger] v.deep_view()[j]) != name@,
        decreases v@.len() - i,
    {
        if v[i].eq(name) {
            assert(v.deep_view()[i as int] == name@);
            return true;
        }
        i += 1;
    }
    proof {
        if v.deep_view().contains(name@) {
            let j = choose|j: int| 0 <= j < v.deep_view().len() && v.deep_view()[j] == name@;
            assert(v.deep_view()[j] != name@);
        }
    }
    false
}

/// The collection with every entry of the given slot left out.
fn retained(entries: &Vec<RecordEntry>, v6: bool, name: &String) -> (out: Vec<RecordEntry>)
    ensures
        out@ == evicted(entries@, (SlotKey { v6: v6, name: name@ })),
{
    let ghost k = SlotKey { v6: v6, name: name@ };
    let mut out: Vec<RecordEntry> = Vec::new();
    let mut i: usize = 0;
    while i < entries.len()
        invariant
            i <= entries@.len(),
            k == (SlotKey { v6: v6, name: name@ }),
            out@ == evicted(entries@.take(i as int), k),
        decreases entries@.len() - i,
    {
        let e = &entries[i];
        let same_family = e.is_ipv6() == v6;
        let same_slot = if same_family {
            e.get_name().eq(name)
        } else {
            false
        };
        if !same_slot {
            out.push(e.clone());
        }
        proof {
            assert(entries@.take(i as int + 1).drop_last() =~= entries@.take(i as int));
            assert(entries@.take(i as int + 1).last() == entries@[i as int]);
            if entries@[i as int].spec_is_v6() == v6 && entries@[i as int].spec_name() == name@ {
                assert(entries@[i as int].key() == k);
            } else {
                assert(entries@[i as int].key() != k);
            }
        }
        i += 1;
    }
    proof {
        assert(entries@.take(entries@.len() as int) =~= entries@);
    }
    out
}

/// Finds where an entry of this address belongs in a collection already in
/// display order.
fn insert_pos(out: &Vec<RecordEntry>, addr: IpAddress) -> (pos: usize)
    requires
        sorted(out@),
    ensures
        pos <= out@.len(),
        forall|j: int| 0 <= j < pos ==> ip_le((#[trigger] out@[j]).spec_addr(), addr),
        pos < out@.len() ==> !ip_le(out@[pos as int].spec_addr(), addr),
{
    let mut pos: usize = 0;
    while pos < out.len()
        invariant
            pos <= out@.len(),
            forall|j: int| 0 <= j < pos ==> ip_le((#[trigger] out@[j]).spec_addr(), addr),
        decreases out@.len() - pos,
    {
        if !le_addr(out[pos].get_addr(), addr) {
            return pos;
        }
        pos += 1;
    }
    pos
}

/// A copy of the collection in display order, carrying the same bindings.
#[verifier::rlimit(60)]
fn sorted_copy(entries: &Vec<RecordEntry>) -> (out: Vec<RecordEntry>)
    requires
        dedup_ok(entries@),
    ensures
        sorted(out@),
        dedup_ok(out@),
        binding_set(out@) == binding_set(entries@),
        out@.len() == entries@.len(),
{
    let mut out: Vec<RecordEntry> = Vec::new();
    let mut i: usize = 0;
    while i < entries.len()
        invariant
            i <= entries@.len(),
            dedup_ok(entries@),
            out@.len() == i,
            sorted(out@),
            dedup_ok(out@),
            binding_set(out@) == binding_set(entries@.take(i as int)),
        decreases entries@.len() - i,
    {
        let e = entries[i].clone();
        let pos = insert_pos(&out, e.get_addr());
        let ghost prev = out@;
        let ghost x = entries@[i as int];
        out.insert(pos, e);
        proof {
            assert(out@ == prev.insert(pos as int, x));
            prev.insert_ensures(pos as int, x);
            // order is kept
            assert forall|a: int, b: int|
                0 <= a < b < out@.len() implies ip_le(out@[a].spec_addr(), out@[b].spec_addr()) by {
                if b < pos {
                    assert(out@[a] == prev[a] && out@[b] == prev[b]);
                } else if b == pos {
                    assert(out@[a] == prev[a]);
                    assert(ip_le(prev[a].spec_addr(), x.spec_addr()));
                } else if a == pos {
                    assert(out@[b] == prev[b - 1] && b - 1 >= pos);
                    assert(!ip_le(prev[pos as int].spec_addr(), x.spec_addr()));
                    lemma_ip_le_total(prev[pos as int].spec_addr(), x.spec_addr());
                    if b - 1 > pos {
                        lemma_ip_le_trans(
                            x.spec_addr(),
                            prev[pos as int].spec_addr(),
                            prev[b - 1].spec_addr(),
                        );
                    }
                } else if a < pos {
                    assert(out@[a] == prev[a] && out@[b] == prev[b - 1]);
                    assert(a <= b - 1);
                } else {
                    assert(out@[a] == prev[a - 1] && out@[b] == prev[b - 1]);
                }
            }
            // slots stay distinct
            lemma_binding_set_insert(prev, pos as int, x);
            assert forall|a: int, b: int|
                0 <= a < b < out@.len() implies out@[a].key() != out@[b].key() by {
                if a != pos && b != pos {
                    let a0: int = if a < pos { a } else { a - 1 };
                    let b0: int = if b < pos { b } else { b - 1 };
                    assert(out@[a] == prev[a0] && out@[b] == prev[b0]);
                } else {
                    let c: int = if a == pos { b } else { a };
                    let c0: int = if c < pos { c } else { c - 1 };
                    assert(out@[c] == prev[c0]);
                    assert(binding_set(prev).contains(prev[c0].binding()));
                    assert(binding_set(entries@.take(i as int)).contains(prev[c0].binding()));
                    let i0 = choose|i0: int|
                        0 <= i0 < entries@.take(i as int).len() && (#[trigger] entries@.take(
                            i as int,
                        )[i0]).binding() == prev[c0].binding();
                    assert(entries@[i0] == entries@.take(i as int)[i0]);
                    lemma_key_of_binding(entries@[i0]);
                    lemma_key_of_binding(prev[c0]);
                    lemma_key_of_binding(x);
                    assert(entries@[i0].key() == prev[c0].key());
                    assert(0 <= i0 && i0 < i as int && (i as int) < entries@.len());
                    assert(dedup_ok(entries@));
                    assert(entries@[i0].key() != entries@[i as int].key());
                }
            }
            // the carried bindings grow by exactly this entry's binding
            assert(binding_set(entries@.take(i as int + 1)) == binding_set(
                entries@.take(i as int),
            ).insert(x.binding())) by {
                lemma_binding_set_insert(entries@.take(i as int), i as int, x);
                assert(entries@.take(i as int).insert(i as int, x) =~= entries@.take(i as int + 1));
            }
        }
        i += 1;
    }
    proof {
        assert(entries@.take(entries@.len() as int) =~= entries@);
    }
    out
}

/// Law: a batch's own slots take the batch's last value for them; after any
/// run of applied batches, laid end to end as one history, the slot of any
/// entry that no later entry overrides holds exactly that entry's address.
pub proof fn lemma_latest_wins(history: Seq<RecordEntry>, i: int)
    requires
        0 <= i < history.len(),
        forall|j: int| i < j < history.len() ==> (#[trigger] history[j]).key() != history[i].key(),
    ensures
        slot_map(history).contains_key(history[i].key()),
        slot_map(history)[history[i].key()] == history[i].spec_addr(),
    decreases history.len(),
{
    if i == history.len() - 1 {
        assert(history.last() == history[i]);
    } else {
        assert(forall|j: int|
            i < j < history.drop_last().len() ==> (#[trigger] history.drop_last()[j]).key()
                != history.drop_last()[i].key());
        lemma_latest_wins(history.drop_last(), i);
        assert(history[history.len() - 1].key() != history[i].key());
        assert(history.last() == history[history.len() - 1]);
    }
}

/// Law: lookup agrees with the store's content map. A host name's address of
/// a family is found exactly when the store holds that slot, and it is the
/// address the slot holds — for a slot only an IPv4 binding fills, lookup is
/// present for IPv4 and absent for IPv6; with no binding, absent for both.
pub proof fn lemma_last_bound_is_slot(s: Seq<RecordEntry>, v6: bool, name: Seq<char>)
    ensures
        last_bound(s, v6, name) is Some <==> slot_map(s).contains_key(
            (SlotKey { v6: v6, name: name }),
        ),
        last_bound(s, v6, name) matches Some(a) ==> slot_map(s)[(SlotKey { v6: v6, name: name })]
            == a,
    decreases s.len(),
{
    let k = SlotKey { v6: v6, name: name };
    if s.len() > 0 {
        lemma_last_bound_is_slot(s.drop_last(), v6, name);
        if s.last().spec_is_v6() == v6 && s.last().spec_name() == name {
            assert(s.last().key() == k);
        } else {
            assert(s.last().key() != k);
        }
    }
}

/// Law: applying a batch a second time leaves every slot exactly as the
/// first application left it.
pub proof fn lemma_apply_idempotent(init: Seq<RecordEntry>, batch: Seq<RecordEntry>)
    ensures
        slot_map(init + batch + batch) == slot_map(init + batch),
{
    lemma_slot_map_concat(init, batch);
    lemma_slot_map_concat(init + batch, batch);
    assert(slot_map(init + batch).union_prefer_right(slot_map(batch)) =~= slot_map(init + batch));
}

/// Law: a store left by applying a batch once and a store left by applying
/// it twice carry the same bindings. The premises are exactly what `apply`
/// ensures of each store.
pub proof fn lemma_reapply_same_contents(
    init: Seq<RecordEntry>,
    batch: Seq<RecordEntry>,
    once: Seq<RecordEntry>,
    twice: Seq<RecordEntry>,
)
    requires
        dedup_ok(once),
        slot_map(once) == slot_map(init + batch),
        dedup_ok(twice),
        slot_map(twice) == slot_map(init + batch + batch),
    ensures
        binding_set(once) == binding_set(twice),
{
    lemma_apply_idempotent(init, batch);
    lemma_map_determines_bindings(once, twice);
}

} // verus!
