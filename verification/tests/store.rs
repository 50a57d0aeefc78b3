use dns_responder::dns_database::{DnsDatabase, DnsRecord};
use dns_responder::dns_message::RecordType;

fn record(record_type: RecordType, value: &str, ttl: u32) -> DnsRecord {
    DnsRecord { record_type, value: value.to_string(), ttl }
}

#[test]
fn new_store_is_empty() {
    let db = DnsDatabase::new();
    assert!(db.get_record("example.com.", RecordType::A).is_none());
    assert!(db.get_record("", RecordType::A).is_none());
}

#[test]
fn get_record_finds_inserted_record() {
    let mut db = DnsDatabase::new();
    db.add_record("example.com.", record(RecordType::A, "192.0.2.1", 3600));
    let found = db.get_record("example.com.", RecordType::A).unwrap();
    assert_eq!(found.record_type, RecordType::A);
    assert_eq!(found.value, "192.0.2.1");
    assert_eq!(found.ttl, 3600);
}

#[test]
fn get_record_returns_first_in_insertion_order() {
    let mut db = DnsDatabase::new();
    db.add_record("a.test", record(RecordType::A, "10.0.0.1", 1));
    db.add_record("b.test", record(RecordType::A, "10.0.0.9", 9));
    db.add_record("a.test", record(RecordType::A, "10.0.0.2", 2));
    db.add_record("a.test", record(RecordType::TXT, "hello", 3));
    let found = db.get_record("a.test", RecordType::A).unwrap();
    assert_eq!(found.value, "10.0.0.1");
    assert_eq!(found.ttl, 1);
    let found = db.get_record("a.test", RecordType::TXT).unwrap();
    assert_eq!(found.value, "hello");
    assert_eq!(db.get_record("b.test", RecordType::A).unwrap().value, "10.0.0.9");
}

#[test]
fn get_record_matches_type_exactly() {
    let mut db = DnsDatabase::new();
    db.add_record("a.test", record(RecordType::CNAME, "b.test", 5));
    assert!(db.get_record("a.test", RecordType::A).is_none());
    assert!(db.get_record("a.test", RecordType::AAAA).is_none());
    assert!(db.get_record("a.test", RecordType::MX).is_none());
    assert!(db.get_record("a.test", RecordType::TXT).is_none());
    assert_eq!(db.get_record("a.test", RecordType::CNAME).unwrap().value, "b.test");
}

#[test]
fn get_record_is_case_and_dot_sensitive() {
    let mut db = DnsDatabase::new();
    db.add_record("example.com.", record(RecordType::A, "192.0.2.1", 3600));
    assert!(db.get_record("example.com", RecordType::A).is_none());
    assert!(db.get_record("Example.com.", RecordType::A).is_none());
    assert!(db.get_record("example.com..", RecordType::A).is_none());
}

#[test]
fn cname_is_returned_as_stored() {
    let mut db = DnsDatabase::new();
    db.add_record("www.test", record(RecordType::CNAME, "test", 5));
    db.add_record("test", record(RecordType::A, "10.0.0.1", 5));
    assert!(db.get_record("www.test", RecordType::A).is_none());
}

#[test]
fn add_text_record_inserts_the_record() {
    let mut db = DnsDatabase::new();
    db.add_text_record("mail.test", RecordType::MX, "mx.test", 77);
    let found = db.get_record("mail.test", RecordType::MX).unwrap();
    assert_eq!(found.record_type, RecordType::MX);
    assert_eq!(found.value, "mx.test");
    assert_eq!(found.ttl, 77);
}

#[test]
fn add_dummy_seeds_the_example_zone() {
    let mut db = DnsDatabase::new();
    db.add_dummy();
    let a = db.get_record("example.com.", RecordType::A).unwrap();
    assert_eq!((a.value.as_str(), a.ttl), ("192.0.2.1", 3600));
    let aaaa = db.get_record("example.com", RecordType::AAAA).unwrap();
    assert_eq!((aaaa.value.as_str(), aaaa.ttl), ("2001:db8::1", 3600));
    let www = db.get_record("www.example.com", RecordType::CNAME).unwrap();
    assert_eq!(www.value, "example.com");
    let blog = db.get_record("blog.example.com", RecordType::CNAME).unwrap();
    assert_eq!(blog.value, "example.com");
    let mx = db.get_record("example.com", RecordType::MX).unwrap();
    assert_eq!(mx.value, "mail.example.com");
    assert!(db.get_record("example.com", RecordType::A).is_none());
    assert!(db.get_record("example.com.", RecordType::AAAA).is_none());
    assert!(db.get_record("example.com", RecordType::TXT).is_none());
}

#[test]
fn add_dummy_keeps_earlier_records_first() {
    let mut db = DnsDatabase::new();
    db.add_record("example.com.", record(RecordType::A, "198.51.100.7", 60));
    db.add_dummy();
    let a = db.get_record("example.com.", RecordType::A).unwrap();
    assert_eq!((a.value.as_str(), a.ttl), ("198.51.100.7", 60));
}

#[test]
fn clone_keeps_the_fields() {
    let first = record(RecordType::TXT, "v=spf1", 42);
    let copy = first.clone();
    assert_eq!(copy.record_type, RecordType::TXT);
    assert_eq!(copy.value, "v=spf1");
    assert_eq!(copy.ttl, 42);
}
