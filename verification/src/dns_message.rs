//! The DNS message codec: the twelve-byte header and the single question that follows it.

use crate::buffer::{
    as_slice, be_bytes, buffer_with_capacity, contents, lemma_be_bytes_u16, put_u16,
};
use bytes::BytesMut;
use vstd::prelude::*;

verus! {

/// The result code of a response, a four-bit field on the wire.
#[derive(Copy, Clone, Debug, PartialEq, Eq, Structural)]
pub enum ResultCode {
    NOERROR,
    FORMERR,
    SERVFAIL,
    NXDOMAIN,
    NOTIMP,
    REFUSED,
}

impl ResultCode {
    /// The code that a wire value stands for; values without a code read as `NOERROR`.
    pub open spec fn spec_from_num(num: u8) -> ResultCode {
        if num == 1 {
            ResultCode::FORMERR
        } else if num == 2 {
            ResultCode::SERVFAIL
        } else if num == 3 {
            ResultCode::NXDOMAIN
        } else if num == 4 {
            ResultCode::NOTIMP
        } else if num == 5 {
            ResultCode::REFUSED
        } else {
            ResultCode::NOERROR
        }
    }

    /// The wire value of a code.
    pub open spec fn spec_to_num(self) -> u8 {
        match self {
            ResultCode::NOERROR => 0,
            ResultCode::FORMERR => 1,
            ResultCode::SERVFAIL => 2,
            ResultCode::NXDOMAIN => 3,
            ResultCode::NOTIMP => 4,
            ResultCode::REFUSED => 5,
        }
    }

    /// Decodes a wire value permissively: anything out of range is `NOERROR`.
    pub fn from_num(num: u8) -> (code: ResultCode)
        ensures
            code == Self::spec_from_num(num),
    {
        match num {
            1 => ResultCode::FORMERR,
            2 => ResultCode::SERVFAIL,
            3 => ResultCode::NXDOMAIN,
            4 => ResultCode::NOTIMP,
            5 => ResultCode::REFUSED,
            _ => ResultCode::NOERROR,
        }
    }

    /// The wire value of a code.
    pub fn to_num(self) -> (num: u8)
        ensures
            num == self.spec_to_num(),
            num <= 5,
    {
        match self {
            ResultCode::NOERROR => 0,
            ResultCode::FORMERR => 1,
            ResultCode::SERVFAIL => 2,
            ResultCode::NXDOMAIN => 3,
            ResultCode::NOTIMP => 4,
            ResultCode::REFUSED => 5,
        }
    }
}

/// Why a datagram could not be decoded.
#[derive(Copy, Clone, Debug, PartialEq, Eq, Structural)]
pub enum ParseError {
    /// Fewer than twelve bytes: no header.
    HeaderTooShort,
    /// The name, the type or the class of the question runs past the end.
    QuestionTruncated,
}

/// The header of a DNS message, one named field per wire field.
#[derive(Copy, Clone, Debug, PartialEq, Eq, Structural)]
pub struct DnsHeader {
    pub id: u16,
    pub response: bool,
    pub opcode: u8,
    pub authoritative_answer: bool,
    pub truncated_message: bool,
    pub recursion_desired: bool,
    pub recursion_available: bool,
    pub checking_disabled: bool,
    pub authed_data: bool,
    pub z: bool,
    pub result_code: ResultCode,
    pub questions_count: u16,
    pub answers_count: u16,
    pub authority_count: u16,
    pub additional_count: u16,
}

/// One flag as the weight of its bit.
pub open spec fn bit(flag: bool, weight: nat) -> nat {
    if flag {
        weight
    } else {
        0
    }
}

/// The sixteen-bit value that two bytes hold, most significant first.
pub open spec fn be_u16(high: u8, low: u8) -> u16 {
    (high as nat * 256 + low as nat) as u16
}

impl DnsHeader {
    /// The first flag byte: QR, opcode, AA, TC, RD from the top bit down.
    pub open spec fn flags_high(self) -> u8 {
        (bit(self.response, 128) + (self.opcode as nat % 16) * 8 + bit(
            self.authoritative_answer,
            4,
        ) + bit(self.truncated_message, 2) + bit(self.recursion_desired, 1)) as u8
    }

    /// The second flag byte: RA, Z, AD, CD from the top bit down, then the result code.
    pub open spec fn flags_low(self) -> u8 {
        (bit(self.recursion_available, 128) + bit(self.z, 64) + bit(self.authed_data, 32) + bit(
            self.checking_disabled,
            16,
        ) + self.result_code.spec_to_num() as nat) as u8
    }

    /// The twelve bytes of a header on the wire.
    pub open spec fn wire(self) -> Seq<u8> {
        be_bytes(self.id as nat, 2) + seq![self.flags_high(), self.flags_low()] + be_bytes(
            self.questions_count as nat,
            2,
        ) + be_bytes(self.answers_count as nat, 2) + be_bytes(self.authority_count as nat, 2)
            + be_bytes(self.additional_count as nat, 2)
    }

    /// The header that the first twelve bytes of a datagram hold.
    pub open spec fn decode(bytes: Seq<u8>) -> DnsHeader
        recommends
            bytes.len() >= 12,
    {
        DnsHeader {
            id: be_u16(bytes[0], bytes[1]),
            response: bytes[2] / 128 == 1,
            opcode: (bytes[2] / 8) % 16,
            authoritative_answer: (bytes[2] / 4) % 2 == 1,
            truncated_message: (bytes[2] / 2) % 2 == 1,
            recursion_desired: bytes[2] % 2 == 1,
            recursion_available: bytes[3] / 128 == 1,
            z: (bytes[3] / 64) % 2 == 1,
            authed_data: (bytes[3] / 32) % 2 == 1,
            checking_disabled: (bytes[3] / 16) % 2 == 1,
            result_code: ResultCode::spec_from_num(bytes[3] % 16),
            questions_count: be_u16(bytes[4], bytes[5]),
            answers_count: be_u16(bytes[6], bytes[7]),
            authority_count: be_u16(bytes[8], bytes[9]),
            additional_count: be_u16(bytes[10], bytes[11]),
        }
    }

    /// The header of the response to a request with this header: the response flag set,
    /// recursion never on offer, the given result code and answer count, the rest kept.
    pub open spec fn answered(self, status: ResultCode, answers_count: u16) -> DnsHeader {
        DnsHeader {
            response: true,
            recursion_available: false,
            result_code: status,
            answers_count,
            ..self
        }
    }

    /// The header with every field zero or false.
    pub open spec fn spec_blank() -> DnsHeader {
        DnsHeader {
            id: 0,
            response: false,
            opcode: 0,
            authoritative_answer: false,
            truncated_message: false,
            recursion_desired: false,
            recursion_available: false,
            checking_disabled: false,
            authed_data: false,
            z: false,
            result_code: ResultCode::NOERROR,
            questions_count: 0,
            answers_count: 0,
            authority_count: 0,
            additional_count: 0,
        }
    }

    /// The header with every field zero or false.
    pub fn blank() -> (header: DnsHeader)
        ensures
            header == Self::spec_blank(),
    {
        DnsHeader {
            id: 0,
            response: false,
            opcode: 0,
            authoritative_answer: false,
            truncated_message: false,
            recursion_desired: false,
            recursion_available: false,
            checking_disabled: false,
            authed_data: false,
            z: false,
            result_code: ResultCode::NOERROR,
            questions_count: 0,
            answers_count: 0,
            authority_count: 0,
            additional_count: 0,
        }
    }

    /// Decodes the header of a datagram, which takes its first twelve bytes.
    pub fn parse(buf: &BytesMut) -> (parsed: Result<DnsHeader, ParseError>)
        ensures
            contents(*buf).len() < 12 ==> parsed == Err::<DnsHeader, ParseError>(
                ParseError::HeaderTooShort,
            ),
            contents(*buf).len() >= 12 ==> parsed == Ok::<DnsHeader, ParseError>(
                Self::decode(contents(*buf)),
            ),
    {
        let bytes: &[u8] = as_slice(buf);
        if bytes.len() < 12 {
            return Err(ParseError::HeaderTooShort);
        }
        let a: u8 = bytes[2];
        let b: u8 = bytes[3];
        proof {
            assert((a & 1 > 0) == (a % 2 == 1)) by (bit_vector);
            assert((a & 2 > 0) == ((a / 2) % 2 == 1)) by (bit_vector);
            assert((a & 4 > 0) == ((a / 4) % 2 == 1)) by (bit_vector);
            assert((a >> 3) & 0x0F == (a / 8) % 16) by (bit_vector);
            assert((a & 128 > 0) == (a / 128 == 1)) by (bit_vector);
            assert(b & 0x0F == b % 16) by (bit_vector);
            assert((b & 16 > 0) == ((b / 16) % 2 == 1)) by (bit_vector);
            assert((b & 32 > 0) == ((b / 32) % 2 == 1)) by (bit_vector);
            assert((b & 64 > 0) == ((b / 64) % 2 == 1)) by (bit_vector);
            assert((b & 128 > 0) == (b / 128 == 1)) by (bit_vector);
        }
        Ok(
            DnsHeader {
                id: read_u16(bytes, 0),
                response: a & 128 > 0,
                opcode: (a >> 3) & 0x0F,
                authoritative_answer: a & 4 > 0,
                truncated_message: a & 2 > 0,
                recursion_desired: a & 1 > 0,
                recursion_available: b & 128 > 0,
                checking_disabled: b & 16 > 0,
                authed_data: b & 32 > 0,
                z: b & 64 > 0,
                result_code: ResultCode::from_num(b & 0x0F),
                questions_count: read_u16(bytes, 4),
                answers_count: read_u16(bytes, 6),
                authority_count: read_u16(bytes, 8),
                additional_count: read_u16(bytes, 10),
            },
        )
    }

    /// The first flag byte of the header.
    fn high_flags(&self) -> (byte: u8)
        ensures
            byte == self.flags_high(),
    {
        let opcode: u8 = self.opcode % 16;
        let mut byte: u8 = opcode * 8;
        if self.response {
            byte += 128;
        }
        if self.authoritative_answer {
            byte += 4;
        }
        if self.truncated_message {
            byte += 2;
        }
        if self.recursion_desired {
            byte += 1;
        }
        byte
    }

    /// The second flag byte of the header.
    fn low_flags(&self) -> (byte: u8)
        ensures
            byte == self.flags_low(),
    {
        let mut byte: u8 = self.result_code.to_num();
        if self.recursion_available {
            byte += 128;
        }
        if self.z {
            byte += 64;
        }
        if self.authed_data {
            byte += 32;
        }
        if self.checking_disabled {
            byte += 16;
        }
        byte
    }

    /// Turns the header into that of the response and serializes it.
    pub fn format(&mut self, status: ResultCode, answers_count: u16) -> (response: BytesMut)
        ensures
            *final(self) == old(self).answered(status, answers_count),
            contents(response) == final(self).wire(),
            contents(response).len() == 12,
    {
        self.response = true;
        self.result_code = status;
        self.answers_count = answers_count;
        self.recursion_available = false;

        let a: u8 = self.high_flags();
        let b: u8 = self.low_flags();
        let flags: u16 = a as u16 * 256 + b as u16;

        proof {
            lemma_be_bytes_u16(self.id);
            lemma_be_bytes_u16(flags);
            lemma_be_bytes_u16(self.questions_count);
            lemma_be_bytes_u16(self.answers_count);
            lemma_be_bytes_u16(self.authority_count);
            lemma_be_bytes_u16(self.additional_count);
        }
        let mut response = buffer_with_capacity(512);
        put_u16(&mut response, self.id);
        put_u16(&mut response, flags);
        put_u16(&mut response, self.questions_count);
        put_u16(&mut response, self.answers_count);
        put_u16(&mut response, self.authority_count);
        put_u16(&mut response, self.additional_count);
        proof {
            assert(flags / 256 == a && flags % 256 == b);
            assert(contents(response) =~= self.wire());
        }
        response
    }
}

/// The type of a stored record.
#[derive(Copy, Clone, Debug, PartialEq, Eq, Structural)]
pub enum RecordType {
    A,
    CNAME,
    MX,
    TXT,
    AAAA,
}

impl RecordType {
    /// The numeric code of a record type on the wire.
    pub open spec fn spec_code(self) -> u16 {
        match self {
            RecordType::A => 1,
            RecordType::CNAME => 5,
            RecordType::MX => 15,
            RecordType::TXT => 16,
            RecordType::AAAA => 28,
        }
    }

    /// The numeric code of a record type on the wire.
    pub fn code(self) -> (code: u16)
        ensures
            code == self.spec_code(),
    {
        match self {
            RecordType::A => 1,
            RecordType::CNAME => 5,
            RecordType::MX => 15,
            RecordType::TXT => 16,
            RecordType::AAAA => 28,
        }
    }
}

/// The type that a question asks for: one that records can have, or a code that none has.
#[derive(Copy, Clone, Debug, PartialEq, Eq, Structural)]
pub enum QueryType {
    Known(RecordType),
    Unrecognized(u16),
}

impl QueryType {
    /// The query type that a wire code stands for.
    pub open spec fn spec_from_code(code: u16) -> QueryType {
        if code == 1 {
            QueryType::Known(RecordType::A)
        } else if code == 5 {
            QueryType::Known(RecordType::CNAME)
        } else if code == 15 {
            QueryType::Known(RecordType::MX)
        } else if code == 16 {
            QueryType::Known(RecordType::TXT)
        } else if code == 28 {
            QueryType::Known(RecordType::AAAA)
        } else {
            QueryType::Unrecognized(code)
        }
    }

    /// Decodes a wire code; a code of no record type is kept as it came.
    pub fn from_code(code: u16) -> (qtype: QueryType)
        ensures
            qtype == Self::spec_from_code(code),
    {
        match code {
            1 => QueryType::Known(RecordType::A),
            5 => QueryType::Known(RecordType::CNAME),
            15 => QueryType::Known(RecordType::MX),
            16 => QueryType::Known(RecordType::TXT),
            28 => QueryType::Known(RecordType::AAAA),
            _ => QueryType::Unrecognized(code),
        }
    }
}

/// The question of a query: a name, a type and a class.
#[derive(Debug)]
pub struct DnsQuestion {
    pub qname: String,
    pub qtype: QueryType,
    pub qclass: u16,
}

/// A question as a mathematical value.
pub struct QuestionView {
    pub qname: Seq<char>,
    pub qtype: QueryType,
    pub qclass: u16,
}

impl View for DnsQuestion {
    type V = QuestionView;

    open spec fn view(&self) -> QuestionView {
        QuestionView { qname: self.qname@, qtype: self.qtype, qclass: self.qclass }
    }
}

/// `String::push`: appends one character.
pub assume_specification[ String::push ](text: &mut String, ch: char)
    ensures
        final(text)@ == old(text)@.push(ch),
;

/// Where the name that starts at `pos` ends: the place of its zero byte, reached by
/// stepping over one length-prefixed label after another; nothing if the bytes run out.
pub open spec fn name_end(bytes: Seq<u8>, pos: int) -> Option<int>
    decreases bytes.len() - pos,
{
    if pos < 0 || pos >= bytes.len() {
        None
    } else if bytes[pos] == 0 {
        Some(pos)
    } else if pos + 1 + bytes[pos] >= bytes.len() {
        None
    } else {
        name_end(bytes, pos + 1 + bytes[pos])
    }
}

/// A name ends at or after its start, inside the bytes, on a zero byte.
pub proof fn lemma_name_end_bounds(bytes: Seq<u8>, pos: int)
    ensures
        name_end(bytes, pos) is Some ==> pos <= name_end(bytes, pos)->Some_0 < bytes.len()
            && bytes[name_end(bytes, pos)->Some_0] == 0,
    decreases bytes.len() - pos,
{
    if 0 <= pos < bytes.len() && bytes[pos] != 0 && pos + 1 + bytes[pos] < bytes.len() {
        lemma_name_end_bounds(bytes, pos + 1 + bytes[pos]);
    }
}

/// A datagram with a question has at least seventeen bytes: the header, the zero byte
/// that ends the name, the type and the class.
pub proof fn lemma_question_needs_seventeen_bytes(bytes: Seq<u8>)
    ensures
        question_of(bytes) is Some ==> bytes.len() >= 17,
{
    lemma_name_end_bounds(bytes, 12);
}

/// The text of the name that starts at `pos`: each label byte as one character, and a
/// dot after each label.
pub open spec fn name_text(bytes: Seq<u8>, pos: int) -> Seq<char>
    decreases bytes.len() - pos,
{
    if pos < 0 || pos >= bytes.len() || bytes[pos] == 0 || pos + 1 + bytes[pos] >= bytes.len() {
        Seq::empty()
    } else {
        Seq::new(bytes[pos] as nat, |i: int| bytes[pos + 1 + i] as char).push('.') + name_text(
            bytes,
            pos + 1 + bytes[pos],
        )
    }
}

/// The question of a datagram: the name from byte twelve on, then two bytes of type and
/// two of class; nothing if any of these runs past the end.
pub open spec fn question_of(bytes: Seq<u8>) -> Option<QuestionView> {
    match name_end(bytes, 12) {
        Some(end) => if end + 5 <= bytes.len() {
            Some(
                QuestionView {
                    qname: name_text(bytes, 12),
                    qtype: QueryType::spec_from_code(be_u16(bytes[end + 1], bytes[end + 2])),
                    qclass: be_u16(bytes[end + 3], bytes[end + 4]),
                },
            )
        } else {
            None
        },
        None => None,
    }
}

/// Decodes the single question of a datagram.
pub fn parse_question(buf: &[u8]) -> (parsed: Result<DnsQuestion, ParseError>)
    ensures
        match question_of(buf@) {
            Some(question) => parsed is Ok && parsed->Ok_0@ == question,
            None => parsed == Err::<DnsQuestion, ParseError>(ParseError::QuestionTruncated),
        },
{
    let mut pos: usize = 12;
    let mut qname = String::new();
    while pos < buf.len() && buf[pos] != 0
        invariant
            12 <= pos,
            name_end(buf@, 12) == name_end(buf@, pos as int),
            name_text(buf@, 12) == qname@ + name_text(buf@, pos as int),
        decreases buf.len() - pos,
    {
        let len: usize = buf[pos] as usize;
        if len >= buf.len() - pos - 1 {
            return Err(ParseError::QuestionTruncated);
        }
        let ghost before = qname@;
        let mut i: usize = 0;
        while i < len
            invariant
                i <= len,
                pos + 1 + len < buf.len(),
                len == buf@[pos as int],
                qname@ == before + Seq::new(i as nat, |k: int| buf@[pos + 1 + k] as char),
            decreases len - i,
        {
            qname.push(buf[pos + 1 + i] as char);
            i += 1;
            proof {
                assert(qname@ =~= before + Seq::new(i as nat, |k: int| buf@[pos + 1 + k] as char));
            }
        }
        qname.push('.');
        proof {
            assert(qname@ + name_text(buf@, pos + 1 + len) =~= before + name_text(
                buf@,
                pos as int,
            ));
        }
        pos = pos + 1 + len;
    }
    if pos >= buf.len() || buf.len() - pos < 5 {
        return Err(ParseError::QuestionTruncated);
    }
    proof {
        assert(qname@ =~= name_text(buf@, 12));
    }
    let qtype = QueryType::from_code(read_u16(buf, pos + 1));
    let qclass: u16 = read_u16(buf, pos + 3);
    Ok(DnsQuestion { qname, qtype, qclass })
}

/// Reads two bytes as a sixteen-bit value, most significant first.
fn read_u16(bytes: &[u8], at: usize) -> (value: u16)
    requires
        at + 2 <= bytes@.len(),
    ensures
        value == be_u16(bytes@[at as int], bytes@[at + 1]),
{
    let high: u8 = bytes[at];
    let low: u8 = bytes[at + 1];
    high as u16 * 256 + low as u16
}

/// The twelve bytes of a header, one by one.
pub proof fn lemma_wire_bytes(header: DnsHeader)
    ensures
        header.wire() == seq![
            (header.id / 256) as u8,
            (header.id % 256) as u8,
            header.flags_high(),
            header.flags_low(),
            (header.questions_count / 256) as u8,
            (header.questions_count % 256) as u8,
            (header.answers_count / 256) as u8,
            (header.answers_count % 256) as u8,
            (header.authority_count / 256) as u8,
            (header.authority_count % 256) as u8,
            (header.additional_count / 256) as u8,
            (header.additional_count % 256) as u8,
        ],
{
    lemma_be_bytes_u16(header.id);
    lemma_be_bytes_u16(header.questions_count);
    lemma_be_bytes_u16(header.answers_count);
    lemma_be_bytes_u16(header.authority_count);
    lemma_be_bytes_u16(header.additional_count);
    assert(header.wire() =~= seq![
        (header.id / 256) as u8,
        (header.id % 256) as u8,
        header.flags_high(),
        header.flags_low(),
        (header.questions_count / 256) as u8,
        (header.questions_count % 256) as u8,
        (header.answers_count / 256) as u8,
        (header.answers_count % 256) as u8,
        (header.authority_count / 256) as u8,
        (header.authority_count % 256) as u8,
        (header.additional_count / 256) as u8,
        (header.additional_count % 256) as u8,
    ]);
}

/// Decoding a header and serializing the response to it, with the result code and the
/// answer count that it came with, gives back the twelve bytes with the response bit set
/// and the recursion-available bit cleared, wherever the result code is one of the six
/// that have a name.
pub proof fn lemma_parse_format_round_trip(bytes: Seq<u8>)
    requires
        bytes.len() == 12,
        bytes[3] % 16 <= 5,
    ensures
        ({
            let request = DnsHeader::decode(bytes);
            let wire = request.answered(request.result_code, request.answers_count).wire();
            &&& wire.len() == 12
            &&& wire[2] == 128 + bytes[2] % 128
            &&& wire[3] == bytes[3] % 128
            &&& forall|i: int| 0 <= i < 12 && i != 2 && i != 3 ==> wire[i] == bytes[i]
        }),
{
    let request = DnsHeader::decode(bytes);
    let reply = request.answered(request.result_code, request.answers_count);
    lemma_wire_bytes(reply);
    lemma_flag_bits(bytes[2], bytes[3]);
    assert(ResultCode::spec_from_num(bytes[3] % 16).spec_to_num() == bytes[3] % 16);
    lemma_be_u16_bytes(bytes[0], bytes[1]);
    lemma_be_u16_bytes(bytes[4], bytes[5]);
    lemma_be_u16_bytes(bytes[6], bytes[7]);
    lemma_be_u16_bytes(bytes[8], bytes[9]);
    lemma_be_u16_bytes(bytes[10], bytes[11]);
}

/// A sixteen-bit value read from two bytes splits into those two bytes again.
pub proof fn lemma_be_u16_bytes(high: u8, low: u8)
    ensures
        be_u16(high, low) / 256 == high,
        be_u16(high, low) % 256 == low,
{
}

/// The flag bits of two bytes, each at its weight, add up to the bytes without their
/// top bits and, in the second byte, with the result code as its low nibble.
proof fn lemma_flag_bits(a: u8, b: u8)
    ensures
        ((a / 8) % 16) % 16 * 8 + bit((a / 4) % 2 == 1, 4) + bit((a / 2) % 2 == 1, 2) + bit(
            a % 2 == 1,
            1,
        ) == a % 128,
        bit((b / 64) % 2 == 1, 64) + bit((b / 32) % 2 == 1, 32) + bit((b / 16) % 2 == 1, 16) + b
            % 16 == b % 128,
{
    assert(((a / 8) % 16) % 16 * 8 + (if (a / 4) % 2 == 1 {
        4u8
    } else {
        0u8
    }) + (if (a / 2) % 2 == 1 {
        2u8
    } else {
        0u8
    }) + (if a % 2 == 1 {
        1u8
    } else {
        0u8
    }) == a % 128) by (bit_vector);
    assert((if (b / 64) % 2 == 1 {
        64u8
    } else {
        0u8
    }) + (if (b / 32) % 2 == 1 {
        32u8
    } else {
        0u8
    }) + (if (b / 16) % 2 == 1 {
        16u8
    } else {
        0u8
    }) + b % 16 == b % 128) by (bit_vector);
}

} // verus!
