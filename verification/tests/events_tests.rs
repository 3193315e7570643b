use host_snapshot::events::{default_event_query, normalize_event, normalize_events, EventSnapshot, LogChannel};
use host_snapshot::json::events_to_json;

const VALID_DOC: &str = "<Event xmlns='http://schemas.microsoft.com/win/2004/08/events/event'>\
<System><Provider Name='Kernel' Guid='{0}'/>\
<EventID Qualifiers='16384'>41</EventID><Version>0</Version><Level>2</Level>\
</System><EventData></EventData></Event>";

const NO_PROVIDER_NAME_DOC: &str = "<Event><System><Provider/>\
<EventID>41</EventID><Level>2</Level></System></Event>";

#[test]
fn valid_document_normalizes() {
    let rec = normalize_event(VALID_DOC.as_bytes()).unwrap();
    assert_eq!(rec.event_id, 41);
    assert_eq!(rec.provider_name, b"Kernel".to_vec());
    assert_eq!(rec.level, 2);
}

#[test]
fn one_valid_one_malformed_yields_one_record_one_diagnostic() {
    let docs = vec![VALID_DOC.as_bytes().to_vec(), NO_PROVIDER_NAME_DOC.as_bytes().to_vec()];
    let (records, skipped) = normalize_events(&docs);
    assert_eq!(records.len(), 1);
    assert_eq!(records[0].event_id, 41);
    assert_eq!(records[0].provider_name, b"Kernel".to_vec());
    assert_eq!(records[0].level, 2);
    assert_eq!(skipped, vec![1]);
}

#[test]
fn double_quoted_provider_name_is_read() {
    let doc = "<Event><System><Provider Name=\"Svc Host\"/>\
<EventID>7</EventID><Level>4</Level></System></Event>";
    let rec = normalize_event(doc.as_bytes()).unwrap();
    assert_eq!(rec.provider_name, b"Svc Host".to_vec());
    assert_eq!(rec.event_id, 7);
    assert_eq!(rec.level, 4);
}

#[test]
fn missing_level_is_skipped() {
    let doc = "<Event><System><Provider Name='Kernel'/>\
<EventID>41</EventID></System></Event>";
    assert!(normalize_event(doc.as_bytes()).is_none());
}

#[test]
fn missing_event_id_is_skipped() {
    let doc = "<Event><System><Provider Name='Kernel'/>\
<Level>2</Level></System></Event>";
    assert!(normalize_event(doc.as_bytes()).is_none());
}

#[test]
fn non_numeric_event_id_is_skipped() {
    let doc = "<Event><System><Provider Name='Kernel'/>\
<EventID>abc</EventID><Level>2</Level></System></Event>";
    assert!(normalize_event(doc.as_bytes()).is_none());
}

#[test]
fn batch_keeps_delivery_order() {
    let a = "<Event><System><Provider Name='A'/><EventID>1</EventID><Level>1</Level></System></Event>";
    let b = "<Event><System><Provider Name='B'/><EventID>2</EventID><Level>3</Level></System></Event>";
    let docs = vec![a.as_bytes().to_vec(), b.as_bytes().to_vec()];
    let (records, skipped) = normalize_events(&docs);
    assert_eq!(records.len(), 2);
    assert_eq!(records[0].provider_name, b"A".to_vec());
    assert_eq!(records[1].provider_name, b"B".to_vec());
    assert!(skipped.is_empty());
}

#[test]
fn empty_batch_writes_empty_array() {
    let docs: Vec<Vec<u8>> = Vec::new();
    let (records, skipped) = normalize_events(&docs);
    assert!(records.is_empty());
    assert!(skipped.is_empty());
    assert_eq!(events_to_json(&EventSnapshot { events: records }), b"[]".to_vec());
}

#[test]
fn default_query_names_both_channels_and_threshold_one() {
    let q = default_event_query();
    assert_eq!(q.channels, vec![LogChannel::Application, LogChannel::System]);
    assert_eq!(q.min_level, 1);
}
