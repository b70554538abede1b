//! The scan task's record handling: turning answer records of one discovery
//! response into bindings and applying them to the store as one batch.
//!
//! Listening itself is asynchronous work that the surrounding program drives;
//! it hands every response's answer records to [`process_response`].

use vstd::prelude::*;

use crate::record::slot_map;
use crate::record::IpAddress;
use crate::record::RecordEntry;
use crate::store::RecordEntries;

verus! {

/// What one answer record carries: an IPv4 or IPv6 address, or some other
/// record kind, which the scan ignores.
#[derive(Debug)]
pub enum AnswerKind {
    A(u32),
    AAAA(u128),
    Other,
}

/// One answer record of a discovery response: its kind and the host name it
/// was advertised under.
#[derive(Debug)]
pub struct AnswerRecord {
    pub kind: AnswerKind,
    pub name: String,
}

/// The bindings a run of answer records yields, address records only, in
/// order of arrival.
pub open spec fn extracted(s: Seq<AnswerRecord>) -> Seq<RecordEntry>
    decreases s.len(),
{
    if s.len() == 0 {
        Seq::empty()
    } else {
        let rest = extracted(s.drop_last());
        match s.last().kind {
            AnswerKind::A(a) => rest.push(RecordEntry::A(a, s.last().name)),
            AnswerKind::AAAA(a) => rest.push(RecordEntry::AAAA(a, s.last().name)),
            AnswerKind::Other => rest,
        }
    }
}

/// The address and host name of an answer record, absent for record kinds
/// that carry no address.
pub fn to_ip_addr(record: &AnswerRecord) -> (r: Option<(IpAddress, String)>)
    ensures
        (record.kind is Other) ==> r is None,
        forall|a: u32|
            record.kind == AnswerKind::A(a) ==> (r matches Some(p) && p.0 == IpAddress::V4(a)
                && p.1 == record.name),
        forall|a: u128|
            record.kind == AnswerKind::AAAA(a) ==> (r matches Some(p) && p.0 == IpAddress::V6(a)
                && p.1 == record.name),
{
    match &record.kind {
        AnswerKind::A(a) => Some((IpAddress::V4(*a), record.name.clone())),
        AnswerKind::AAAA(a) => Some((IpAddress::V6(*a), record.name.clone())),
        AnswerKind::Other => None,
    }
}

/// The batch of bindings one response contributes: every answer record that
/// carries an address, paired with its host name, in order of arrival.
pub fn extract_bindings(records: &Vec<AnswerRecord>) -> (batch: Vec<RecordEntry>)
    ensures
        batch@ == extracted(records@),
{
    let mut batch: Vec<RecordEntry> = Vec::new();
    let mut i: usize = 0;
    while i < records.len()
        invariant
            i <= records@.len(),
            batch@ == extracted(records@.take(i as int)),
        decreases records@.len() - i,
    {
        match to_ip_addr(&records[i]) {
            Some((addr, name)) => {
                batch.push(RecordEntry::new(addr, name));
                proof {
                    assert(records@.take(i as int + 1).drop_last() =~= records@.take(i as int));
                    assert(records@.take(i as int + 1).last() == records@[i as int]);
                }
            },
            None => {
                proof {
                    assert(records@.take(i as int + 1).drop_last() =~= records@.take(i as int));
                    assert(records@.take(i as int + 1).last() == records@[i as int]);
                }
            },
        }
        i += 1;
    }
    proof {
        assert(records@.take(records@.len() as int) =~= records@);
    }
    batch
}

/// Merges one response's address records into the store as a single batch:
/// each slot the response names takes its most recent address from the
/// response, every other slot keeps its binding.
pub fn process_response(store: &mut RecordEntries, records: &Vec<AnswerRecord>)
    requires
        old(store).wf(),
    ensures
        final(store).wf(),
        slot_map(final(store)@) == slot_map(old(store)@ + extracted(records@)),
{
    let batch = extract_bindings(records);
    store.apply(batch);
}

} // verus!
