use mdns_scan::record::IpAddress;
use mdns_scan::scan::to_ip_addr;
use mdns_scan::scan::extract_bindings;
use mdns_scan::scan::process_response;
use mdns_scan::scan::AnswerKind;
use mdns_scan::scan::AnswerRecord;
use mdns_scan::store::RecordEntries;

fn answer(kind: AnswerKind, name: &str) -> AnswerRecord {
    AnswerRecord { kind, name: String::from(name) }
}

#[test]
fn address_records_yield_their_address_and_name() {
    let a = answer(AnswerKind::A(0x0a000005), "printer.local");
    assert_eq!(
        to_ip_addr(&a),
        Some((IpAddress::V4(0x0a000005), String::from("printer.local")))
    );
    let aaaa = answer(AnswerKind::AAAA(1), "printer.local");
    assert_eq!(
        to_ip_addr(&aaaa),
        Some((IpAddress::V6(1), String::from("printer.local")))
    );
}

#[test]
fn other_record_kinds_are_ignored() {
    let other = answer(AnswerKind::Other, "printer.local");
    assert_eq!(to_ip_addr(&other), None);
}

#[test]
fn extraction_keeps_address_records_in_arrival_order() {
    let records = vec![
        answer(AnswerKind::Other, "skipped"),
        answer(AnswerKind::A(1), "first"),
        answer(AnswerKind::AAAA(2), "second"),
        answer(AnswerKind::Other, "skipped too"),
    ];
    let batch = extract_bindings(&records);
    assert_eq!(batch.len(), 2);
    assert_eq!(batch[0].get_addr(), IpAddress::V4(1));
    assert_eq!(batch[0].get_name().as_str(), "first");
    assert_eq!(batch[1].get_addr(), IpAddress::V6(2));
    assert_eq!(batch[1].get_name().as_str(), "second");
}

#[test]
fn one_response_is_merged_as_one_batch() {
    let mut store = RecordEntries::new();
    let records = vec![
        answer(AnswerKind::A(0x0a000005), "host"),
        answer(AnswerKind::Other, "host"),
        answer(AnswerKind::AAAA(7), "host"),
        answer(AnswerKind::A(0x0a000009), "host"),
    ];
    process_response(&mut store, &records);
    let (a, b) = store.find(&String::from("host"));
    assert_eq!(a, Some(IpAddress::V4(0x0a000009)));
    assert_eq!(b, Some(IpAddress::V6(7)));
    assert_eq!(store.entries().len(), 2);
}
