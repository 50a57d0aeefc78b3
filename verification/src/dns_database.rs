//! The record store: the zone's records in the order in which they were inserted.

use crate::dns_message::RecordType;
use vstd::prelude::*;

verus! {

/// One resource record: its type, its value as text and its time to live in seconds.
#[derive(Debug)]
pub struct DnsRecord {
    pub record_type: RecordType,
    pub value: String,
    pub ttl: u32,
}

/// A record as a mathematical value.
pub struct RecordView {
    pub record_type: RecordType,
    pub value: Seq<char>,
    pub ttl: u32,
}

impl View for DnsRecord {
    type V = RecordView;

    open spec fn view(&self) -> RecordView {
        RecordView { record_type: self.record_type, value: self.value@, ttl: self.ttl }
    }
}

impl Clone for DnsRecord {
    fn clone(&self) -> (copy: DnsRecord)
        ensures
            copy@ == self@,
    {
        DnsRecord { record_type: self.record_type, value: self.value.clone(), ttl: self.ttl }
    }
}

/// A record under the name that owns it.
struct Entry {
    name: String,
    record: DnsRecord,
}

/// The zone data: every inserted record with its owner name, oldest first.
pub struct DnsDatabase {
    entries: Vec<Entry>,
}

/// The first record at or after `from` that stands under exactly `name` and has type
/// `rtype`.
pub open spec fn first_match(
    entries: Seq<(Seq<char>, RecordView)>,
    name: Seq<char>,
    rtype: RecordType,
    from: int,
) -> Option<RecordView>
    decreases entries.len() - from,
{
    if from < 0 || from >= entries.len() {
        None
    } else if entries[from].0 == name && entries[from].1.record_type == rtype {
        Some(entries[from].1)
    } else {
        first_match(entries, name, rtype, from + 1)
    }
}

/// What a lookup of `name` and `rtype` finds in `entries`.
pub open spec fn lookup(entries: Seq<(Seq<char>, RecordView)>, name: Seq<char>, rtype: RecordType)
    -> Option<RecordView> {
    first_match(entries, name, rtype, 0)
}

/// The records that every fresh store can be seeded with, as example zone data.
pub open spec fn example_zone() -> Seq<(Seq<char>, RecordView)> {
    seq![
        ("example.com."@, RecordView { record_type: RecordType::A, value: "192.0.2.1"@, ttl: 3600 }),
        ("example.com."@, RecordView { record_type: RecordType::A, value: "192.0.2.2"@, ttl: 3600 }),
        (
            "example.com"@,
            RecordView { record_type: RecordType::AAAA, value: "2001:db8::1"@, ttl: 3600 },
        ),
        (
            "example.com"@,
            RecordView { record_type: RecordType::AAAA, value: "2001:db8::2"@, ttl: 3600 },
        ),
        (
            "www.example.com"@,
            RecordView { record_type: RecordType::CNAME, value: "example.com"@, ttl: 3600 },
        ),
        (
            "blog.example.com"@,
            RecordView { record_type: RecordType::CNAME, value: "example.com"@, ttl: 3600 },
        ),
        (
            "example.com"@,
            RecordView { record_type: RecordType::MX, value: "mail.example.com"@, ttl: 3600 },
        ),
        (
            "example.com"@,
            RecordView { record_type: RecordType::MX, value: "altmail.example.com"@, ttl: 3600 },
        ),
    ]
}

impl View for DnsDatabase {
    type V = Seq<(Seq<char>, RecordView)>;

    closed spec fn view(&self) -> Seq<(Seq<char>, RecordView)> {
        Seq::new(self.entries@.len(), |i: int| (self.entries@[i].name@, self.entries@[i].record@))
    }
}

impl DnsDatabase {
    /// A store without records.
    pub fn new() -> (db: DnsDatabase)
        ensures
            db@ == Seq::<(Seq<char>, RecordView)>::empty(),
    {
        let db = DnsDatabase { entries: Vec::new() };
        proof {
            assert(db@ =~= Seq::<(Seq<char>, RecordView)>::empty());
        }
        db
    }

    /// The first record, in insertion order, whose owner name is exactly `domain` and
    /// whose type is `rtype`.
    pub fn get_record(&self, domain: &str, rtype: RecordType) -> (found: Option<DnsRecord>)
        ensures
            match lookup(self@, domain@, rtype) {
                Some(record) => found is Some && found->Some_0@ == record,
                None => found is None,
            },
    {
        let wanted: String = domain.to_owned();
        let mut i: usize = 0;
        while i < self.entries.len()
            invariant
                i <= self.entries@.len(),
                wanted@ == domain@,
                lookup(self@, domain@, rtype) == first_match(self@, domain@, rtype, i as int),
            decreases self.entries@.len() - i,
        {
            let entry: &Entry = &self.entries[i];
            if entry.name == wanted && entry.record.record_type == rtype {
                return Some(entry.record.clone());
            }
            i += 1;
        }
        None
    }

    /// Appends a record under `domain`; nothing that the store held changes.
    pub fn add_record(&mut self, domain: &str, record: DnsRecord)
        ensures
            final(self)@ == old(self)@.push((domain@, record@)),
    {
        self.entries.push(Entry { name: domain.to_owned(), record });
        proof {
            assert(self@ =~= old(self)@.push((domain@, record@)));
        }
    }

    /// Appends the example zone data.
    pub fn add_dummy(&mut self)
        ensures
            final(self)@ == old(self)@ + example_zone(),
    {
        self.add_text_record("example.com.", RecordType::A, "192.0.2.1", 3600);
        self.add_text_record("example.com.", RecordType::A, "192.0.2.2", 3600);
        self.add_text_record("example.com", RecordType::AAAA, "2001:db8::1", 3600);
        self.add_text_record("example.com", RecordType::AAAA, "2001:db8::2", 3600);
        self.add_text_record("www.example.com", RecordType::CNAME, "example.com", 3600);
        self.add_text_record("blog.example.com", RecordType::CNAME, "example.com", 3600);
        self.add_text_record("example.com", RecordType::MX, "mail.example.com", 3600);
        self.add_text_record("example.com", RecordType::MX, "altmail.example.com", 3600);
        proof {
            assert(self@ =~= old(self)@ + example_zone());
        }
    }

    /// Appends the record that a name, a type, a textual value and a time to live make.
    pub fn add_text_record(&mut self, domain: &str, rtype: RecordType, value: &str, ttl: u32)
        ensures
            final(self)@ == old(self)@.push(
                (domain@, RecordView { record_type: rtype, value: value@, ttl }),
            ),
    {
        self.add_record(domain, DnsRecord { record_type: rtype, value: value.to_owned(), ttl });
    }
}

/// A lookup in a store that has grown by one record finds what it found before; where it
/// found nothing, it finds the new record if that has the name and the type asked for.
pub proof fn lemma_lookup_after_insert(
    entries: Seq<(Seq<char>, RecordView)>,
    owner: Seq<char>,
    record: RecordView,
    name: Seq<char>,
    rtype: RecordType,
)
    ensures
        lookup(entries.push((owner, record)), name, rtype) == match lookup(entries, name, rtype) {
            Some(found) => Some(found),
            None => if owner == name && record.record_type == rtype {
                Some(record)
            } else {
                None
            },
        },
{
    lemma_first_match_after_insert(entries, owner, record, name, rtype, 0);
}

proof fn lemma_first_match_after_insert(
    entries: Seq<(Seq<char>, RecordView)>,
    owner: Seq<char>,
    record: RecordView,
    name: Seq<char>,
    rtype: RecordType,
    from: int,
)
    requires
        0 <= from <= entries.len(),
    ensures
        first_match(entries.push((owner, record)), name, rtype, from) == match first_match(
            entries,
            name,
            rtype,
            from,
        ) {
            Some(found) => Some(found),
            None => if owner == name && record.record_type == rtype {
                Some(record)
            } else {
                None
            },
        },
    decreases entries.len() - from,
{
    let grown = entries.push((owner, record));
    if from < entries.len() {
        assert(grown[from] == entries[from]);
        lemma_first_match_after_insert(entries, owner, record, name, rtype, from + 1);
    } else {
        assert(grown[from] == (owner, record));
        assert(first_match(grown, name, rtype, from + 1) is None);
    }
}

} // verus!
