use bytes::BytesMut;
use dns_responder::dns_message::{
    parse_question, DnsHeader, ParseError, QueryType, RecordType, ResultCode,
};

fn query(id: u16, flags: [u8; 2], name: &[&str], qtype: u16, qclass: u16) -> Vec<u8> {
    let mut out = Vec::new();
    out.extend_from_slice(&id.to_be_bytes());
    out.extend_from_slice(&flags);
    out.extend_from_slice(&[0, 1, 0, 0, 0, 0, 0, 0]);
    for label in name {
        out.push(label.len() as u8);
        out.extend_from_slice(label.as_bytes());
    }
    out.push(0);
    out.extend_from_slice(&qtype.to_be_bytes());
    out.extend_from_slice(&qclass.to_be_bytes());
    out
}

#[test]
fn result_code_from_num_maps_the_six_codes() {
    assert_eq!(ResultCode::from_num(0), ResultCode::NOERROR);
    assert_eq!(ResultCode::from_num(1), ResultCode::FORMERR);
    assert_eq!(ResultCode::from_num(2), ResultCode::SERVFAIL);
    assert_eq!(ResultCode::from_num(3), ResultCode::NXDOMAIN);
    assert_eq!(ResultCode::from_num(4), ResultCode::NOTIMP);
    assert_eq!(ResultCode::from_num(5), ResultCode::REFUSED);
}

#[test]
fn result_code_from_num_is_permissive() {
    assert_eq!(ResultCode::from_num(6), ResultCode::NOERROR);
    assert_eq!(ResultCode::from_num(15), ResultCode::NOERROR);
    assert_eq!(ResultCode::from_num(255), ResultCode::NOERROR);
}

#[test]
fn result_code_to_num_inverts_from_num() {
    for n in 0u8..=5 {
        assert_eq!(ResultCode::from_num(n).to_num(), n);
    }
}

#[test]
fn record_type_codes() {
    assert_eq!(RecordType::A.code(), 1);
    assert_eq!(RecordType::CNAME.code(), 5);
    assert_eq!(RecordType::MX.code(), 15);
    assert_eq!(RecordType::TXT.code(), 16);
    assert_eq!(RecordType::AAAA.code(), 28);
}

#[test]
fn query_type_from_code() {
    assert_eq!(QueryType::from_code(1), QueryType::Known(RecordType::A));
    assert_eq!(QueryType::from_code(5), QueryType::Known(RecordType::CNAME));
    assert_eq!(QueryType::from_code(15), QueryType::Known(RecordType::MX));
    assert_eq!(QueryType::from_code(16), QueryType::Known(RecordType::TXT));
    assert_eq!(QueryType::from_code(28), QueryType::Known(RecordType::AAAA));
    assert_eq!(QueryType::from_code(0), QueryType::Unrecognized(0));
    assert_eq!(QueryType::from_code(255), QueryType::Unrecognized(255));
}

#[test]
fn header_parse_rejects_short_buffers() {
    for len in 0..12 {
        let buf = BytesMut::from(&vec![0xFFu8; len][..]);
        assert_eq!(DnsHeader::parse(&buf), Err(ParseError::HeaderTooShort));
    }
}

#[test]
fn header_parse_reads_every_field() {
    let buf = BytesMut::from(
        &[0x12u8, 0x34, 0b1010_1101, 0b1101_0011, 0, 1, 0, 2, 0, 3, 1, 4, 9, 9][..],
    );
    let header = DnsHeader::parse(&buf).unwrap();
    assert_eq!(header.id, 0x1234);
    assert!(header.response);
    assert_eq!(header.opcode, 0b0101);
    assert!(header.authoritative_answer);
    assert!(!header.truncated_message);
    assert!(header.recursion_desired);
    assert!(header.recursion_available);
    assert!(header.z);
    assert!(!header.authed_data);
    assert!(header.checking_disabled);
    assert_eq!(header.result_code, ResultCode::NXDOMAIN);
    assert_eq!(header.questions_count, 1);
    assert_eq!(header.answers_count, 2);
    assert_eq!(header.authority_count, 3);
    assert_eq!(header.additional_count, 0x0104);
}

#[test]
fn header_parse_of_plain_query() {
    let buf = BytesMut::from(&[0xABu8, 0xCD, 0x01, 0x00, 0, 1, 0, 0, 0, 0, 0, 0][..]);
    let header = DnsHeader::parse(&buf).unwrap();
    assert_eq!(header.id, 0xABCD);
    assert!(!header.response);
    assert_eq!(header.opcode, 0);
    assert!(header.recursion_desired);
    assert!(!header.recursion_available);
    assert_eq!(header.result_code, ResultCode::NOERROR);
    assert_eq!(header.questions_count, 1);
}

#[test]
fn header_format_sets_response_and_clears_recursion_available() {
    let buf = BytesMut::from(&[0xABu8, 0xCD, 0x01, 0x80, 0, 1, 0, 0, 0, 0, 0, 0][..]);
    let mut header = DnsHeader::parse(&buf).unwrap();
    assert!(header.recursion_available);
    let out = header.format(ResultCode::NXDOMAIN, 0);
    assert_eq!(&out[..], &[0xAB, 0xCD, 0x81, 0x03, 0, 1, 0, 0, 0, 0, 0, 0]);
    assert!(header.response);
    assert!(!header.recursion_available);
    assert_eq!(header.result_code, ResultCode::NXDOMAIN);
    assert_eq!(header.answers_count, 0);
}

#[test]
fn header_format_writes_count_and_code() {
    let buf = BytesMut::from(&[0x00u8, 0x07, 0x29, 0x00, 0, 1, 0, 9, 0, 2, 0, 3][..]);
    let mut header = DnsHeader::parse(&buf).unwrap();
    let out = header.format(ResultCode::REFUSED, 0x0102);
    assert_eq!(&out[..], &[0x00, 0x07, 0xA9, 0x05, 0, 1, 1, 2, 0, 2, 0, 3]);
}

#[test]
fn header_round_trip_keeps_flag_pattern() {
    for a in 0u16..=255 {
        for b in 0u16..=255 {
            if b % 16 > 5 {
                continue;
            }
            let input = [0x55u8, 0xAA, a as u8, b as u8, 1, 2, 3, 4, 5, 6, 7, 8];
            let buf = BytesMut::from(&input[..]);
            let mut header = DnsHeader::parse(&buf).unwrap();
            let code = header.result_code;
            let count = header.answers_count;
            let out = header.format(code, count);
            let mut expected = input;
            expected[2] |= 0x80;
            expected[3] &= 0x7F;
            assert_eq!(&out[..], &expected[..]);
        }
    }
}

#[test]
fn header_round_trip_of_unnamed_code_reads_as_noerror() {
    let buf = BytesMut::from(&[0u8, 1, 0x00, 0x0B, 0, 1, 0, 0, 0, 0, 0, 0][..]);
    let mut header = DnsHeader::parse(&buf).unwrap();
    let code = header.result_code;
    let out = header.format(code, 0);
    assert_eq!(out[3], 0x00);
}

#[test]
fn blank_header_formats_to_bare_formerr() {
    let mut header = DnsHeader::blank();
    let out = header.format(ResultCode::FORMERR, 0);
    assert_eq!(&out[..], &[0, 0, 0x80, 0x01, 0, 0, 0, 0, 0, 0, 0, 0]);
}

#[test]
fn parse_question_reads_name_type_and_class() {
    let buf = query(1, [1, 0], &["example", "com"], 1, 1);
    let question = parse_question(&buf).unwrap();
    assert_eq!(question.qname, "example.com.");
    assert_eq!(question.qtype, QueryType::Known(RecordType::A));
    assert_eq!(question.qclass, 1);
}

#[test]
fn parse_question_of_root_name() {
    let buf = query(1, [1, 0], &[], 28, 3);
    let question = parse_question(&buf).unwrap();
    assert_eq!(question.qname, "");
    assert_eq!(question.qtype, QueryType::Known(RecordType::AAAA));
    assert_eq!(question.qclass, 3);
}

#[test]
fn parse_question_keeps_unrecognized_type() {
    let buf = query(1, [1, 0], &["www", "example", "com"], 0x0141, 1);
    let question = parse_question(&buf).unwrap();
    assert_eq!(question.qname, "www.example.com.");
    assert_eq!(question.qtype, QueryType::Unrecognized(0x0141));
}

#[test]
fn parse_question_copies_bytes_as_characters() {
    let mut buf = vec![0u8; 12];
    buf.extend_from_slice(&[2, 0xE9, b'A', 0, 0, 16, 0, 1]);
    let question = parse_question(&buf).unwrap();
    assert_eq!(question.qname, "\u{e9}A.");
    assert_eq!(question.qtype, QueryType::Known(RecordType::TXT));
}

#[test]
fn parse_question_rejects_truncation() {
    let full = query(1, [1, 0], &["example", "com"], 1, 1);
    for len in 0..full.len() {
        assert_eq!(
            parse_question(&full[..len]).unwrap_err(),
            ParseError::QuestionTruncated,
            "length {}",
            len
        );
    }
    assert!(parse_question(&full).is_ok());
}

#[test]
fn parse_question_rejects_label_past_the_end() {
    let mut buf = vec![0u8; 12];
    buf.extend_from_slice(&[200, b'a', b'b', 0, 0, 1, 0, 1]);
    assert_eq!(parse_question(&buf).unwrap_err(), ParseError::QuestionTruncated);
}
