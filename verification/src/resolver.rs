//! The answer resolver and the request handler: from a question and the store to one
//! encoded record, and from a request datagram to the response datagram.

use crate::buffer::{
    as_slice, be_bytes, contents, empty_buffer, extend_from_slice, lemma_be_bytes_len,
    lemma_be_bytes_u16, lemma_be_bytes_u32, put_slice, put_u128, put_u16, put_u32,
};
use crate::dns_database::{lookup, DnsDatabase, DnsRecord, RecordView};
use crate::dns_message::{
    lemma_wire_bytes, parse_question, question_of, DnsHeader, DnsQuestion, QueryType,
    QuestionView, RecordType, ResultCode,
};
use bytes::BytesMut;
use vstd::prelude::*;
use vstd::slice::slice_subrange;
use vstd::utf8::encode_utf8;

verus! {

/// The most bytes that one encoded record takes: twelve before its data, and data whose
/// length fits the sixteen-bit length field.
pub const MAX_ANSWER_LEN: usize = 65547;

/// The preference written before the name of every MX record.
pub const MX_PREFERENCE: u16 = 10;

/// A stored record that cannot be put on the wire.
#[derive(Copy, Clone, Debug, PartialEq, Eq, Structural)]
pub enum EncodeError {
    /// The value of an A or AAAA record is no address literal.
    BadAddress,
    /// The encoded name is too long for the record's length field.
    NameTooLong,
}

/// The address that a text denotes as an IPv4 literal, as thirty-two bits; nothing if
/// the text is no such literal.
pub uninterp spec fn ipv4_bits(text: Seq<char>) -> Option<u32>;

/// The address that a text denotes as an IPv6 literal, as 128 bits; nothing if the text
/// is no such literal.
pub uninterp spec fn ipv6_bits(text: Seq<char>) -> Option<u128>;

/// `str::parse` to an `Ipv4Addr`, and the address as an integer: a result that the text
/// alone decides.
#[verifier::external_body]
fn parse_ipv4(text: &str) -> (bits: Option<u32>)
    ensures
        bits == ipv4_bits(text@),
{
    match text.parse::<core::net::Ipv4Addr>() {
        Ok(address) => Some(u32::from(address)),
        Err(_) => None,
    }
}

/// `str::parse` to an `Ipv6Addr`, and the address as an integer: a result that the text
/// alone decides.
#[verifier::external_body]
fn parse_ipv6(text: &str) -> (bits: Option<u128>)
    ensures
        bits == ipv6_bits(text@),
{
    match text.parse::<core::net::Ipv6Addr>() {
        Ok(address) => Some(u128::from(address)),
        Err(_) => None,
    }
}

/// The labels of a text from `at` on, where the label that is being read began at
/// `start`: a label ends at each dot and at the end of the text, and is written as one
/// byte of length (its low eight bits) and then its bytes.
pub open spec fn labels_from(text: Seq<u8>, start: int, at: int) -> Seq<u8>
    decreases text.len() - at,
{
    if at < 0 || at >= text.len() {
        seq![((at - start) % 256) as u8] + text.subrange(start, at)
    } else if text[at] == 46 {
        seq![((at - start) % 256) as u8] + text.subrange(start, at) + labels_from(
            text,
            at + 1,
            at + 1,
        )
    } else {
        labels_from(text, start, at + 1)
    }
}

/// A dotted name in wire form: its labels, then a zero byte.
pub open spec fn encoded_name(text: Seq<u8>) -> Seq<u8> {
    labels_from(text, 0, 0).push(0u8)
}

/// What stands before the data of every answer: the pointer to the question's name at
/// offset twelve, the type, the class IN, the time to live and the length of the data.
pub open spec fn answer_prefix(rtype: RecordType, ttl: u32, rdlength: u16) -> Seq<u8> {
    seq![0xC0u8, 0x0Cu8] + be_bytes(rtype.spec_code() as nat, 2) + be_bytes(1, 2) + be_bytes(
        ttl as nat,
        4,
    ) + be_bytes(rdlength as nat, 2)
}

/// An encoded record whose data is an address of `width` bytes.
pub open spec fn address_answer(rtype: RecordType, ttl: u32, bits: nat, width: nat) -> Seq<u8> {
    answer_prefix(rtype, ttl, width as u16) + be_bytes(bits, width)
}

/// An encoded record whose data is a name, after the fixed preference if it is an MX
/// record; nothing if two more than the name's length does not fit the length field.
pub open spec fn name_answer(rtype: RecordType, ttl: u32, text: Seq<u8>) -> Option<Seq<u8>> {
    let name = encoded_name(text);
    if 2 + name.len() > 65535 {
        None
    } else {
        Some(
            answer_prefix(rtype, ttl, (2 + name.len()) as u16) + (if rtype == RecordType::MX {
                be_bytes(MX_PREFERENCE as nat, 2)
            } else {
                Seq::empty()
            }) + name,
        )
    }
}

/// The encoded form of a stored record, or why it has none.
pub open spec fn answer_of(record: RecordView) -> Result<Seq<u8>, EncodeError> {
    match record.record_type {
        RecordType::A => match ipv4_bits(record.value) {
            Some(bits) => Ok(address_answer(RecordType::A, record.ttl, bits as nat, 4)),
            None => Err(EncodeError::BadAddress),
        },
        RecordType::AAAA => match ipv6_bits(record.value) {
            Some(bits) => Ok(address_answer(RecordType::AAAA, record.ttl, bits as nat, 16)),
            None => Err(EncodeError::BadAddress),
        },
        _ => match name_answer(record.record_type, record.ttl, encode_utf8(record.value)) {
            Some(bytes) => Ok(bytes),
            None => Err(EncodeError::NameTooLong),
        },
    }
}

/// What the store answers to a question: the encoded form of the first record under the
/// question's name with the question's type, nothing where there is no such record or
/// the type is none that records have.
pub open spec fn resolve(entries: Seq<(Seq<char>, RecordView)>, question: QuestionView) -> Result<
    Option<Seq<u8>>,
    EncodeError,
> {
    match question.qtype {
        QueryType::Unrecognized(_) => Ok(None),
        QueryType::Known(rtype) => match lookup(entries, question.qname, rtype) {
            None => Ok(None),
            Some(record) => match answer_of(record) {
                Ok(bytes) => Ok(Some(bytes)),
                Err(error) => Err(error),
            },
        },
    }
}

/// Appends `bytes[from..to]` to `out`.
fn append_range(out: &mut Vec<u8>, bytes: &[u8], from: usize, to: usize)
    requires
        from <= to <= bytes@.len(),
    ensures
        final(out)@ == old(out)@ + bytes@.subrange(from as int, to as int),
{
    let mut i: usize = from;
    while i < to
        invariant
            from <= i <= to <= bytes@.len(),
            out@ == old(out)@ + bytes@.subrange(from as int, i as int),
        decreases to - i,
    {
        out.push(bytes[i]);
        i += 1;
        proof {
            assert(out@ =~= old(out)@ + bytes@.subrange(from as int, i as int));
        }
    }
    proof {
        assert(out@ =~= old(out)@ + bytes@.subrange(from as int, to as int));
    }
}

/// Encodes a dotted name as length-prefixed labels and a closing zero byte.
pub fn encode_domain_name(domain: &str) -> (encoded: Vec<u8>)
    ensures
        encoded@ == encoded_name(encode_utf8(domain@)),
{
    let bytes: &[u8] = domain.as_bytes();
    let mut encoded: Vec<u8> = Vec::new();
    let mut start: usize = 0;
    let mut at: usize = 0;
    while at < bytes.len()
        invariant
            start <= at <= bytes@.len(),
            labels_from(bytes@, 0, 0) == encoded@ + labels_from(bytes@, start as int, at as int),
        decreases bytes@.len() - at,
    {
        if bytes[at] == 46 {
            let ghost before = encoded@;
            encoded.push(((at - start) % 256) as u8);
            append_range(&mut encoded, bytes, start, at);
            proof {
                assert(encoded@ + labels_from(bytes@, at + 1, at + 1) =~= before + labels_from(
                    bytes@,
                    start as int,
                    at as int,
                ));
            }
            start = at + 1;
        }
        at += 1;
    }
    let ghost before = encoded@;
    encoded.push(((at - start) % 256) as u8);
    append_range(&mut encoded, bytes, start, at);
    proof {
        assert(encoded@ =~= before + labels_from(bytes@, start as int, at as int));
    }
    encoded.push(0);
    encoded
}

/// Writes what stands before the data of an answer.
fn put_answer_prefix(answer: &mut BytesMut, rtype: RecordType, ttl: u32, rdlength: u16)
    requires
        contents(*old(answer)).len() == 0,
    ensures
        contents(*final(answer)) == answer_prefix(rtype, ttl, rdlength),
        contents(*final(answer)).len() == 12,
{
    proof {
        lemma_be_bytes_len(rtype.spec_code() as nat, 2);
        lemma_be_bytes_len(1, 2);
        lemma_be_bytes_len(ttl as nat, 4);
        lemma_be_bytes_len(rdlength as nat, 2);
        lemma_be_bytes_len(0xC00C, 2);
        reveal_with_fuel(be_bytes, 3);
        assert(be_bytes(0xC00C, 2) =~= seq![0xC0u8, 0x0Cu8]);
    }
    put_u16(answer, 0xC00C);
    put_u16(answer, rtype.code());
    put_u16(answer, 1);
    put_u32(answer, ttl);
    put_u16(answer, rdlength);
    proof {
        assert(contents(*answer) =~= answer_prefix(rtype, ttl, rdlength));
    }
}

/// Encodes an A record from its time to live and its address.
pub fn encode_address_v4(ttl: u32, bits: u32) -> (answer: BytesMut)
    ensures
        contents(answer) == address_answer(RecordType::A, ttl, bits as nat, 4),
{
    let mut answer = empty_buffer();
    put_answer_prefix(&mut answer, RecordType::A, ttl, 4);
    put_u32(&mut answer, bits);
    answer
}

/// Encodes an AAAA record from its time to live and its address.
pub fn encode_address_v6(ttl: u32, bits: u128) -> (answer: BytesMut)
    ensures
        contents(answer) == address_answer(RecordType::AAAA, ttl, bits as nat, 16),
{
    let mut answer = empty_buffer();
    put_answer_prefix(&mut answer, RecordType::AAAA, ttl, 16);
    put_u128(&mut answer, bits);
    answer
}

/// Encodes a record whose data is a name: a CNAME, MX or TXT record.
pub fn encode_name_record(rtype: RecordType, ttl: u32, value: &str) -> (answer: Result<
    BytesMut,
    EncodeError,
>)
    ensures
        match name_answer(rtype, ttl, encode_utf8(value@)) {
            Some(bytes) => answer is Ok && contents(answer->Ok_0) == bytes,
            None => answer is Err && answer->Err_0 == EncodeError::NameTooLong,
        },
{
    let name: Vec<u8> = encode_domain_name(value);
    if name.len() > 65533 {
        return Err(EncodeError::NameTooLong);
    }
    let rdlength: u16 = (2 + name.len()) as u16;
    let mut answer = empty_buffer();
    put_answer_prefix(&mut answer, rtype, ttl, rdlength);
    if rtype == RecordType::MX {
        proof {
            lemma_be_bytes_len(MX_PREFERENCE as nat, 2);
        }
        put_u16(&mut answer, MX_PREFERENCE);
    }
    put_slice(&mut answer, name.as_slice());
    Ok(answer)
}

/// Encodes a stored record, given what its value denotes as an address literal of
/// either family.
pub fn encode_record(record: &DnsRecord, v4: Option<u32>, v6: Option<u128>) -> (answer: Result<
    BytesMut,
    EncodeError,
>)
    ensures
        match record.record_type {
            RecordType::A => match v4 {
                Some(bits) => answer is Ok && contents(answer->Ok_0) == address_answer(
                    RecordType::A,
                    record.ttl,
                    bits as nat,
                    4,
                ),
                None => answer is Err && answer->Err_0 == EncodeError::BadAddress,
            },
            RecordType::AAAA => match v6 {
                Some(bits) => answer is Ok && contents(answer->Ok_0) == address_answer(
                    RecordType::AAAA,
                    record.ttl,
                    bits as nat,
                    16,
                ),
                None => answer is Err && answer->Err_0 == EncodeError::BadAddress,
            },
            _ => match name_answer(record.record_type, record.ttl, encode_utf8(record.value@)) {
                Some(bytes) => answer is Ok && contents(answer->Ok_0) == bytes,
                None => answer is Err && answer->Err_0 == EncodeError::NameTooLong,
            },
        },
{
    match record.record_type {
        RecordType::A => match v4 {
            Some(bits) => Ok(encode_address_v4(record.ttl, bits)),
            None => Err(EncodeError::BadAddress),
        },
        RecordType::AAAA => match v6 {
            Some(bits) => Ok(encode_address_v6(record.ttl, bits)),
            None => Err(EncodeError::BadAddress),
        },
        _ => encode_name_record(record.record_type, record.ttl, record.value.as_str()),
    }
}

/// Resolves a question against the store into at most one encoded record.
pub fn build_answer(question: DnsQuestion, db: &DnsDatabase) -> (answer: Result<
    Option<BytesMut>,
    EncodeError,
>)
    ensures
        match resolve(db@, question@) {
            Ok(Some(bytes)) => answer is Ok && answer->Ok_0 is Some && contents(
                answer->Ok_0->Some_0,
            ) == bytes,
            Ok(None) => answer is Ok && answer->Ok_0 is None,
            Err(error) => answer is Err && answer->Err_0 == error,
        },
{
    let rtype = match question.qtype {
        QueryType::Known(rtype) => rtype,
        QueryType::Unrecognized(_) => {
            return Ok(None);
        },
    };
    let record = match db.get_record(question.qname.as_str(), rtype) {
        Some(record) => record,
        None => {
            return Ok(None);
        },
    };
    let v4: Option<u32> = match record.record_type {
        RecordType::A => parse_ipv4(record.value.as_str()),
        _ => None,
    };
    let v6: Option<u128> = match record.record_type {
        RecordType::AAAA => parse_ipv6(record.value.as_str()),
        _ => None,
    };
    match encode_record(&record, v4, v6) {
        Ok(bytes) => Ok(Some(bytes)),
        Err(error) => Err(error),
    }
}

/// The response datagram to a request datagram. A request too short for a header gets
/// the blank header as a FORMERR response; one whose question cannot be decoded gets its
/// own header as a FORMERR response; any other gets its header and, byte for byte, all
/// that followed it, with NOERROR and the one answer after them, with NXDOMAIN where
/// there is no answer, or with SERVFAIL where the stored record cannot be encoded.
pub open spec fn response_of(request: Seq<u8>, entries: Seq<(Seq<char>, RecordView)>) -> Seq<u8> {
    if request.len() < 12 {
        DnsHeader::spec_blank().answered(ResultCode::FORMERR, 0).wire()
    } else {
        let header = DnsHeader::decode(request);
        let echoed = request.subrange(12, request.len() as int);
        match question_of(request) {
            None => header.answered(ResultCode::FORMERR, 0).wire(),
            Some(question) => match resolve(entries, question) {
                Ok(Some(answer)) => header.answered(ResultCode::NOERROR, 1).wire() + echoed
                    + answer,
                Ok(None) => header.answered(ResultCode::NXDOMAIN, 0).wire() + echoed,
                Err(_) => header.answered(ResultCode::SERVFAIL, 0).wire() + echoed,
            },
        }
    }
}

/// Every encoded record begins with the pointer `0xC00C`, takes at least the twelve
/// bytes before its data and at most `MAX_ANSWER_LEN`.
pub proof fn lemma_answer_len(record: RecordView)
    ensures
        answer_of(record) is Ok ==> answer_of(record)->Ok_0.len() <= MAX_ANSWER_LEN,
        answer_of(record) is Ok ==> answer_of(record)->Ok_0.len() >= 12,
        answer_of(record) is Ok ==> answer_of(record)->Ok_0[0] == 0xC0,
        answer_of(record) is Ok ==> answer_of(record)->Ok_0[1] == 0x0C,
{
    let rtype = record.record_type;
    lemma_be_bytes_len(rtype.spec_code() as nat, 2);
    lemma_be_bytes_len(1, 2);
    lemma_be_bytes_len(record.ttl as nat, 4);
    lemma_be_bytes_len(MX_PREFERENCE as nat, 2);
    match rtype {
        RecordType::A => {
            lemma_be_bytes_len(4, 2);
            if let Some(bits) = ipv4_bits(record.value) {
                lemma_be_bytes_len(bits as nat, 4);
            }
        },
        RecordType::AAAA => {
            lemma_be_bytes_len(16, 2);
            if let Some(bits) = ipv6_bits(record.value) {
                lemma_be_bytes_len(bits as nat, 16);
            }
        },
        _ => {
            let name = encoded_name(encode_utf8(record.value));
            lemma_be_bytes_len((2 + name.len()) as nat, 2);
        },
    }
}

/// Handles one request datagram: decodes header and question, resolves the question
/// against the store and assembles the response datagram.
pub fn build_response(req: BytesMut, db: &DnsDatabase) -> (response: BytesMut)
    requires
        fits_buffer(contents(req).len()),
    ensures
        contents(response) == response_of(contents(req), db@),
{
    let mut header = match DnsHeader::parse(&req) {
        Ok(header) => header,
        Err(_) => {
            let mut blank = DnsHeader::blank();
            return blank.format(ResultCode::FORMERR, 0);
        },
    };
    let bytes: &[u8] = as_slice(&req);
    let question = match parse_question(bytes) {
        Ok(question) => question,
        Err(_) => {
            return header.format(ResultCode::FORMERR, 0);
        },
    };
    let echoed: &[u8] = slice_subrange(bytes, 12, bytes.len());
    proof {
        if let QueryType::Known(rtype) = question@.qtype {
            if let Some(record) = lookup(db@, question@.qname, rtype) {
                lemma_answer_len(record);
            }
        }
    }
    match build_answer(question, db) {
        Ok(Some(answer)) => {
            let mut response = header.format(ResultCode::NOERROR, 1);
            extend_from_slice(&mut response, echoed);
            put_slice(&mut response, as_slice(&answer));
            response
        },
        Ok(None) => {
            let mut response = header.format(ResultCode::NXDOMAIN, 0);
            extend_from_slice(&mut response, echoed);
            response
        },
        Err(_) => {
            let mut response = header.format(ResultCode::SERVFAIL, 0);
            extend_from_slice(&mut response, echoed);
            response
        },
    }
}

/// Whether the response to a request of `len` bytes is sure to fit a buffer.
pub open spec fn fits_buffer(len: nat) -> bool {
    len + MAX_ANSWER_LEN <= isize::MAX
}

/// The response to send for a request datagram; nothing for a request so long that the
/// response might not fit a buffer.
pub fn handle_request(req: BytesMut, db: &DnsDatabase) -> (response: Option<BytesMut>)
    ensures
        fits_buffer(contents(req).len()) ==> response is Some && contents(response->Some_0)
            == response_of(contents(req), db@),
        !fits_buffer(contents(req).len()) ==> response is None,
{
    let len: usize = as_slice(&req).len();
    if len > (isize::MAX as usize) - MAX_ANSWER_LEN {
        return None;
    }
    Some(build_response(req, db))
}

/// A datagram shorter than a header is answered with the twelve bytes of a FORMERR
/// header, answer count zero, and nothing after them.
pub proof fn lemma_short_datagram_is_refused(
    request: Seq<u8>,
    entries: Seq<(Seq<char>, RecordView)>,
)
    requires
        request.len() < 12,
    ensures
        response_of(request, entries) == seq![
            0u8,
            0u8,
            0x80u8,
            0x01u8,
            0u8,
            0u8,
            0u8,
            0u8,
            0u8,
            0u8,
            0u8,
            0u8,
        ],
{
    lemma_wire_bytes(DnsHeader::spec_blank().answered(ResultCode::FORMERR, 0));
}

/// A question for which the store holds no record is answered with NXDOMAIN, answer
/// count zero, and the request's bytes after the header, and nothing more.
pub proof fn lemma_absent_record_is_nxdomain(
    request: Seq<u8>,
    entries: Seq<(Seq<char>, RecordView)>,
)
    requires
        question_of(request) is Some,
        match question_of(request)->Some_0.qtype {
            QueryType::Known(rtype) => lookup(
                entries,
                question_of(request)->Some_0.qname,
                rtype,
            ) is None,
            QueryType::Unrecognized(_) => true,
        },
    ensures
        ({
            let response = response_of(request, entries);
            &&& response.len() == request.len()
            &&& response[3] % 16 == ResultCode::NXDOMAIN.spec_to_num()
            &&& response[6] == 0 && response[7] == 0
            &&& response.subrange(12, response.len() as int) == request.subrange(
                12,
                request.len() as int,
            )
        }),
{
    let header = DnsHeader::decode(request).answered(ResultCode::NXDOMAIN, 0);
    lemma_wire_bytes(header);
    let response = response_of(request, entries);
    assert(response.subrange(12, response.len() as int) =~= request.subrange(
        12,
        request.len() as int,
    ));
}

/// A question that a stored record matches, where that record can be encoded, is
/// answered with NOERROR, answer count one, the request's bytes after the header, and
/// then an answer whose owner name is the pointer `0xC00C`.
pub proof fn lemma_stored_record_is_answered(
    request: Seq<u8>,
    entries: Seq<(Seq<char>, RecordView)>,
    rtype: RecordType,
    record: RecordView,
)
    requires
        question_of(request) is Some,
        question_of(request)->Some_0.qtype == QueryType::Known(rtype),
        lookup(entries, question_of(request)->Some_0.qname, rtype) == Some(record),
        answer_of(record) is Ok,
    ensures
        ({
            let response = response_of(request, entries);
            &&& response.len() == request.len() + answer_of(record)->Ok_0.len()
            &&& response[3] % 16 == ResultCode::NOERROR.spec_to_num()
            &&& response[6] == 0 && response[7] == 1
            &&& response.subrange(12, request.len() as int) == request.subrange(
                12,
                request.len() as int,
            )
            &&& response.subrange(request.len() as int, response.len() as int) == answer_of(
                record,
            )->Ok_0
            &&& response[request.len() as int] == 0xC0
            &&& response[request.len() as int + 1] == 0x0C
        }),
{
    let header = DnsHeader::decode(request).answered(ResultCode::NOERROR, 1);
    lemma_wire_bytes(header);
    lemma_answer_len(record);
    let response = response_of(request, entries);
    assert(response.subrange(12, request.len() as int) =~= request.subrange(
        12,
        request.len() as int,
    ));
    assert(response.subrange(request.len() as int, response.len() as int) =~= answer_of(
        record,
    )->Ok_0);
}

/// A question that a stored record matches, where that record cannot be encoded, is
/// answered with SERVFAIL, answer count zero, and the request's bytes after the header,
/// and nothing more.
pub proof fn lemma_malformed_record_is_servfail(
    request: Seq<u8>,
    entries: Seq<(Seq<char>, RecordView)>,
    rtype: RecordType,
    record: RecordView,
)
    requires
        question_of(request) is Some,
        question_of(request)->Some_0.qtype == QueryType::Known(rtype),
        lookup(entries, question_of(request)->Some_0.qname, rtype) == Some(record),
        answer_of(record) is Err,
    ensures
        ({
            let response = response_of(request, entries);
            &&& response.len() == request.len()
            &&& response[3] % 16 == ResultCode::SERVFAIL.spec_to_num()
            &&& response[6] == 0 && response[7] == 0
            &&& response.subrange(12, response.len() as int) == request.subrange(
                12,
                request.len() as int,
            )
        }),
{
    let header = DnsHeader::decode(request).answered(ResultCode::SERVFAIL, 0);
    lemma_wire_bytes(header);
    let response = response_of(request, entries);
    assert(response.subrange(12, response.len() as int) =~= request.subrange(
        12,
        request.len() as int,
    ));
}

/// A request of at least twelve bytes whose question cannot be decoded is answered with
/// its own header as a FORMERR response, answer count zero, and nothing after it.
pub proof fn lemma_undecodable_question_is_refused(
    request: Seq<u8>,
    entries: Seq<(Seq<char>, RecordView)>,
)
    requires
        request.len() >= 12,
        question_of(request) is None,
    ensures
        ({
            let response = response_of(request, entries);
            &&& response.len() == 12
            &&& response[0] == request[0] && response[1] == request[1]
            &&& response[3] % 16 == ResultCode::FORMERR.spec_to_num()
            &&& response[6] == 0 && response[7] == 0
        }),
{
    let header = DnsHeader::decode(request).answered(ResultCode::FORMERR, 0);
    lemma_wire_bytes(header);
}

/// In an encoded A record, the length field says four, and the time to live and the data
/// read back, most significant byte first, as the time to live and the address that went in.
pub proof fn lemma_address_v4_reads_back(ttl: u32, bits: u32)
    ensures
        ({
            let answer = address_answer(RecordType::A, ttl, bits as nat, 4);
            &&& answer.len() == 16
            &&& answer[0] == 0xC0 && answer[1] == 0x0C
            &&& answer[2] == 0 && answer[3] == 1
            &&& answer[4] == 0 && answer[5] == 1
            &&& answer[6] * 0x100_0000 + answer[7] * 0x1_0000 + answer[8] * 0x100 + answer[9]
                == ttl
            &&& answer[10] == 0 && answer[11] == 4
            &&& answer[12] * 0x100_0000 + answer[13] * 0x1_0000 + answer[14] * 0x100 + answer[15]
                == bits
        }),
{
    lemma_be_bytes_u16(1);
    lemma_be_bytes_u16(4);
    lemma_be_bytes_u32(ttl);
    lemma_be_bytes_u32(bits);
}

/// The labels of what is left of a text take one byte more than what is left.
proof fn lemma_labels_len(text: Seq<u8>, start: int, at: int)
    requires
        0 <= start <= at <= text.len(),
    ensures
        labels_from(text, start, at).len() == text.len() - start + 1,
    decreases text.len() - at,
{
    if at < text.len() {
        if text[at] == 46 {
            lemma_labels_len(text, at + 1, at + 1);
        } else {
            lemma_labels_len(text, start, at + 1);
        }
    }
}

/// A name in wire form is two bytes longer than its text: every dot has become the
/// length byte of the label after it, and the first length byte and the closing zero
/// are new.
pub proof fn lemma_encoded_name_len(text: Seq<u8>)
    ensures
        encoded_name(text).len() == text.len() + 2,
{
    lemma_labels_len(text, 0, 0);
}

} // verus!
