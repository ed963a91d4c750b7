use ipp_raster::error::IppError;
use ipp_raster::job::{build_get_printer_attributes, extract_job_id, JobStep, JobSubmission};
use ipp_raster::message::{IPPRequest, IPPResponse};
use ipp_raster::tags::{DelimiterOrValueTag, PrinterOperation, StatusCode};
use ipp_raster::values::AttributeValue;

fn push_len(out: &mut Vec<u8>, n: usize) {
    out.push((n / 256) as u8);
    out.push((n % 256) as u8);
}

fn push_attr(out: &mut Vec<u8>, tag: u8, name: &str, value: &[u8]) {
    out.push(tag);
    push_len(out, name.len());
    out.extend_from_slice(name.as_bytes());
    push_len(out, value.len());
    out.extend_from_slice(value);
}

fn response_header(status: u16, request_id: u32) -> Vec<u8> {
    let mut out = vec![1u8, 1u8];
    out.push((status / 256) as u8);
    out.push((status % 256) as u8);
    out.extend_from_slice(&[
        (request_id >> 24) as u8,
        (request_id >> 16) as u8,
        (request_id >> 8) as u8,
        request_id as u8,
    ]);
    out
}

#[test]
fn get_printer_attributes_request_prefix() {
    let req = build_get_printer_attributes(
        &"ipp://192.0.2.1:631".to_string(),
        &"ja-jp".to_string(),
    );
    let mut out = Vec::new();
    req.write_to_stream(&mut out).unwrap();
    // version 1.1, operation 0x000B, request id 1, operation group, charset tag
    assert_eq!(&out[0..10], &[0x01, 0x01, 0x00, 0x0B, 0x00, 0x00, 0x00, 0x01, 0x01, 0x47]);
}

#[test]
fn additional_values_decode_to_vector() {
    let mut bytes = response_header(0, 1);
    bytes.push(0x01); // operation attributes group
    push_attr(&mut bytes, 0x45, "array", b"ipp://192.0.2.1:631");
    push_attr(&mut bytes, 0x45, "", b"ipp://192.0.2.2:631");
    push_attr(&mut bytes, 0x45, "", b"ipp://192.0.2.3:631");
    bytes.push(0x03);
    let resp = IPPResponse::read_from_stream(&bytes).unwrap();
    assert_eq!(resp.attrs.len(), 1);
    assert_eq!(resp.attrs[0].0, DelimiterOrValueTag::OperationAttributesTag);
    let group = &resp.attrs[0].1;
    assert_eq!(group.len(), 1);
    assert_eq!(group[0].0, "array");
    assert_eq!(
        group[0].1,
        AttributeValue::Vector(vec![
            AttributeValue::Uri("ipp://192.0.2.1:631".to_string()),
            AttributeValue::Uri("ipp://192.0.2.2:631".to_string()),
            AttributeValue::Uri("ipp://192.0.2.3:631".to_string()),
        ])
    );
}

#[test]
fn nested_collection_decodes() {
    let mut bytes = response_header(0, 1);
    bytes.push(0x01);
    push_attr(&mut bytes, 0x34, "collection", b""); // begCollection "collection"
    push_attr(&mut bytes, 0x4A, "", b"key1"); // memberAttrName key1
    push_attr(&mut bytes, 0x44, "", b"value1"); // keyword value1
    push_attr(&mut bytes, 0x4A, "", b"key2"); // memberAttrName key2
    push_attr(&mut bytes, 0x34, "", b""); // nested begCollection
    push_attr(&mut bytes, 0x4A, "", b"key2-1");
    push_attr(&mut bytes, 0x44, "", b"value2-1");
    push_attr(&mut bytes, 0x37, "", b""); // endCollection (nested)
    push_attr(&mut bytes, 0x37, "", b""); // endCollection (outer)
    bytes.push(0x03);
    let resp = IPPResponse::read_from_stream(&bytes).unwrap();
    let group = &resp.attrs[0].1;
    assert_eq!(group.len(), 1);
    assert_eq!(group[0].0, "collection");
    assert_eq!(
        group[0].1,
        AttributeValue::Collection(vec![
            ("key1".to_string(), AttributeValue::Keyword("value1".to_string())),
            (
                "key2".to_string(),
                AttributeValue::Collection(vec![(
                    "key2-1".to_string(),
                    AttributeValue::Keyword("value2-1".to_string()),
                )]),
            ),
        ])
    );
}

#[test]
fn request_round_trips_through_wire() {
    let req = IPPRequest {
        version_major: 1,
        version_minor: 1,
        operation_id: PrinterOperation::CreateJob,
        request_id: 7,
        attrs: vec![(
            DelimiterOrValueTag::OperationAttributesTag,
            vec![
                ("attributes-charset".to_string(), AttributeValue::Charset("utf-8".to_string())),
                ("copies".to_string(), AttributeValue::Integer(3)),
                ("duplex".to_string(), AttributeValue::Boolean(false)),
                (
                    "sizes".to_string(),
                    AttributeValue::Vector(vec![
                        AttributeValue::Enum(4),
                        AttributeValue::Enum(5),
                    ]),
                ),
                (
                    "media-col".to_string(),
                    AttributeValue::Collection(vec![
                        ("x-dimension".to_string(), AttributeValue::Integer(21000)),
                        ("y-dimension".to_string(), AttributeValue::Integer(29700)),
                    ]),
                ),
                (
                    "resolution".to_string(),
                    AttributeValue::Resolution { cross_feed: 300, feed: 300, units: 3 },
                ),
                (
                    "range".to_string(),
                    AttributeValue::RangeOfInteger { low: -4, high: 9 },
                ),
                (
                    "name".to_string(),
                    AttributeValue::NameWithLanguage {
                        language: "en".to_string(),
                        name: "doc".to_string(),
                    },
                ),
            ],
        )],
        data: vec![0xDE, 0xAD],
    };
    let mut wire = Vec::new();
    req.write_to_stream(&mut wire).unwrap();
    // decoding as a request gives the same message back
    let back = IPPRequest::read_from_stream(&wire).unwrap();
    assert_eq!(back, req);
}

#[test]
fn attribute_length_field_matches_payload() {
    let req = build_get_printer_attributes(
        &"ipp://192.0.2.1:631".to_string(),
        &"ja-jp".to_string(),
    );
    let mut wire = Vec::new();
    req.write_to_stream(&mut wire).unwrap();
    // first attribute begins after header (8) and group delimiter (1)
    let mut i = 9usize;
    while wire[i] >= 0x10 {
        let name_len = ((wire[i + 1] as usize) << 8) | wire[i + 2] as usize;
        let vl_at = i + 3 + name_len;
        let value_len = ((wire[vl_at] as usize) << 8) | wire[vl_at + 1] as usize;
        // the declared value length is exactly the bytes before the next attribute
        i = vl_at + 2 + value_len;
        assert!(i < wire.len());
    }
    assert_eq!(wire[i], 0x03);
    assert_eq!(i, wire.len() - 1);
}

#[test]
fn tag_bytes_round_trip() {
    let tags = [
        (0x01u8, DelimiterOrValueTag::OperationAttributesTag),
        (0x21, DelimiterOrValueTag::Integer),
        (0x34, DelimiterOrValueTag::BegCollection),
        (0x47, DelimiterOrValueTag::Charset),
        (0x4A, DelimiterOrValueTag::MemberAttrName),
    ];
    for (b, t) in tags {
        assert_eq!(DelimiterOrValueTag::from_byte(b), Ok(t));
        assert_eq!(t.to_byte(), b);
    }
    assert_eq!(DelimiterOrValueTag::from_byte(0x11), Err(IppError::Protocol));
    assert_eq!(DelimiterOrValueTag::from_byte(0x00), Err(IppError::Protocol));
}

#[test]
fn status_codes_round_trip() {
    assert_eq!(StatusCode::from_code(0x0000), Ok(StatusCode::SuccessfulOk));
    assert_eq!(StatusCode::from_code(0x0405), Ok(StatusCode::ClientErrorTimeout));
    assert_eq!(StatusCode::from_code(0x0412), Ok(StatusCode::ClientErrorDocumentAccessError));
    assert_eq!(StatusCode::ServerErrorInternalError.to_code(), 0x0500);
    assert_eq!(StatusCode::from_code(0x7777), Err(IppError::Protocol));
}

#[test]
fn truncated_message_is_io_error() {
    let bytes = response_header(0, 1); // no groups, no end-of-attributes tag
    assert_eq!(IPPResponse::read_from_stream(&bytes), Err(IppError::Io));
    assert_eq!(IPPResponse::read_from_stream(&vec![1, 1, 0]), Err(IppError::Io));
}

#[test]
fn bad_boolean_byte_is_protocol_error() {
    let mut bytes = response_header(0, 1);
    bytes.push(0x01);
    push_attr(&mut bytes, 0x22, "flag", &[2]);
    bytes.push(0x03);
    assert_eq!(IPPResponse::read_from_stream(&bytes), Err(IppError::Protocol));
}

#[test]
fn wrong_integer_length_is_protocol_error() {
    let mut bytes = response_header(0, 1);
    bytes.push(0x01);
    push_attr(&mut bytes, 0x21, "copies", &[0, 0, 1]);
    bytes.push(0x03);
    assert_eq!(IPPResponse::read_from_stream(&bytes), Err(IppError::Protocol));
}

#[test]
fn invalid_utf8_is_value_format_error() {
    let mut bytes = response_header(0, 1);
    bytes.push(0x01);
    push_attr(&mut bytes, 0x44, "kw", &[0xFF, 0xFE]);
    bytes.push(0x03);
    assert_eq!(IPPResponse::read_from_stream(&bytes), Err(IppError::ValueFormat));
}

#[test]
fn bad_datetime_direction_is_value_format_error() {
    let mut bytes = response_header(0, 1);
    bytes.push(0x01);
    push_attr(
        &mut bytes,
        0x31,
        "when",
        &[0x07, 0xE8, 1, 2, 3, 4, 5, 6, b'x', 0, 0],
    );
    bytes.push(0x03);
    assert_eq!(IPPResponse::read_from_stream(&bytes), Err(IppError::ValueFormat));
}

#[test]
fn unknown_status_code_is_protocol_error() {
    let mut bytes = response_header(0x7777, 1);
    bytes.push(0x03);
    assert_eq!(IPPResponse::read_from_stream(&bytes), Err(IppError::Protocol));
}

#[test]
fn unbalanced_collection_is_protocol_error() {
    // begCollection without a matching endCollection before the group ends
    let mut bytes = response_header(0, 1);
    bytes.push(0x01);
    push_attr(&mut bytes, 0x34, "col", b"");
    push_attr(&mut bytes, 0x4A, "", b"key");
    push_attr(&mut bytes, 0x44, "", b"value");
    bytes.push(0x03);
    assert_eq!(IPPResponse::read_from_stream(&bytes), Err(IppError::Protocol));
}

#[test]
fn member_name_without_value_is_protocol_error() {
    // a member name followed directly by endCollection
    let mut bytes = response_header(0, 1);
    bytes.push(0x01);
    push_attr(&mut bytes, 0x34, "col", b"");
    push_attr(&mut bytes, 0x4A, "", b"key");
    push_attr(&mut bytes, 0x37, "", b"");
    push_attr(&mut bytes, 0x37, "", b"");
    bytes.push(0x03);
    assert_eq!(IPPResponse::read_from_stream(&bytes), Err(IppError::Protocol));
}

#[test]
fn string_with_language_round_trips() {
    let mut bytes = response_header(0, 1);
    bytes.push(0x01);
    // [0,2]"en"[0,3]"doc"
    push_attr(&mut bytes, 0x35, "title", &[0, 2, b'e', b'n', 0, 3, b'd', b'o', b'c']);
    bytes.push(0x03);
    let resp = IPPResponse::read_from_stream(&bytes).unwrap();
    assert_eq!(
        resp.attrs[0].1[0].1,
        AttributeValue::TextWithLanguage { language: "en".to_string(), text: "doc".to_string() }
    );
    let mut wire = Vec::new();
    resp.write_to_stream(&mut wire).unwrap();
    assert_eq!(wire, bytes);
}

#[test]
fn swl_length_mismatch_is_value_format_error() {
    let mut bytes = response_header(0, 1);
    bytes.push(0x01);
    // inner lengths say 2+3 but payload has an extra byte
    push_attr(&mut bytes, 0x35, "title", &[0, 2, b'e', b'n', 0, 3, b'd', b'o', b'c', b'!']);
    bytes.push(0x03);
    assert_eq!(IPPResponse::read_from_stream(&bytes), Err(IppError::ValueFormat));
}

#[test]
fn extract_job_id_reads_second_group() {
    let resp = IPPResponse {
        version_major: 1,
        version_minor: 1,
        status_code: StatusCode::SuccessfulOk,
        request_id: 2,
        attrs: vec![
            (DelimiterOrValueTag::OperationAttributesTag, vec![]),
            (
                DelimiterOrValueTag::JobAttributesTag,
                vec![
                    ("job-state".to_string(), AttributeValue::Enum(3)),
                    ("job-id".to_string(), AttributeValue::Integer(42)),
                ],
            ),
        ],
        data: vec![],
    };
    assert_eq!(extract_job_id(&resp), Ok(42));
}

#[test]
fn extract_job_id_requires_two_groups_and_integer() {
    let one_group = IPPResponse {
        version_major: 1,
        version_minor: 1,
        status_code: StatusCode::SuccessfulOk,
        request_id: 2,
        attrs: vec![(DelimiterOrValueTag::OperationAttributesTag, vec![])],
        data: vec![],
    };
    assert_eq!(extract_job_id(&one_group), Err(IppError::Protocol));
    let wrong_shape = IPPResponse {
        version_major: 1,
        version_minor: 1,
        status_code: StatusCode::SuccessfulOk,
        request_id: 2,
        attrs: vec![
            (DelimiterOrValueTag::OperationAttributesTag, vec![]),
            (
                DelimiterOrValueTag::JobAttributesTag,
                vec![("job-id".to_string(), AttributeValue::Keyword("42".to_string()))],
            ),
        ],
        data: vec![],
    };
    assert_eq!(extract_job_id(&wrong_shape), Err(IppError::Protocol));
}

#[test]
fn submission_sequence_walks_the_five_operations() {
    let mut job = JobSubmission::new(
        "ipp://192.0.2.1:631".to_string(),
        "ja-jp".to_string(),
        "alex".to_string(),
        vec![1, 2, 3],
    );
    let ok = IPPResponse {
        version_major: 1,
        version_minor: 1,
        status_code: StatusCode::SuccessfulOk,
        request_id: 1,
        attrs: vec![
            (DelimiterOrValueTag::OperationAttributesTag, vec![]),
            (
                DelimiterOrValueTag::JobAttributesTag,
                vec![("job-id".to_string(), AttributeValue::Integer(9))],
            ),
        ],
        data: vec![],
    };

    assert_eq!(job.step, JobStep::GetPrinterAttributes);
    let r1 = job.next_request().unwrap();
    assert_eq!(r1.operation_id, PrinterOperation::GetPrinterAttributes);
    assert_eq!(r1.request_id, 1);
    job.handle_response(&ok).unwrap();

    assert_eq!(job.step, JobStep::ValidateJob);
    let r2 = job.next_request().unwrap();
    assert_eq!(r2.operation_id, PrinterOperation::ValidateJob);
    job.handle_response(&ok).unwrap();

    assert_eq!(job.step, JobStep::CreateJob);
    let r3 = job.next_request().unwrap();
    assert_eq!(r3.operation_id, PrinterOperation::CreateJob);
    job.handle_response(&ok).unwrap();
    assert_eq!(job.job_id, Some(9));

    assert_eq!(job.step, JobStep::SendDocument);
    let r4 = job.next_request().unwrap();
    assert_eq!(r4.operation_id, PrinterOperation::SendDocument);
    assert_eq!(r4.data, vec![1, 2, 3]);
    job.handle_response(&ok).unwrap();

    assert_eq!(job.step, JobStep::GetJobs);
    let r5 = job.next_request().unwrap();
    assert_eq!(r5.operation_id, PrinterOperation::GetJobs);
    job.handle_response(&ok).unwrap();

    assert_eq!(job.step, JobStep::Done);
    assert!(job.next_request().is_none());
}

#[test]
fn create_job_without_job_id_does_not_advance() {
    let mut job = JobSubmission::new(
        "ipp://192.0.2.1:631".to_string(),
        "ja-jp".to_string(),
        "alex".to_string(),
        vec![],
    );
    job.handle_response(&IPPResponse {
        version_major: 1,
        version_minor: 1,
        status_code: StatusCode::SuccessfulOk,
        request_id: 1,
        attrs: vec![],
        data: vec![],
    })
    .unwrap();
    job.handle_response(&IPPResponse {
        version_major: 1,
        version_minor: 1,
        status_code: StatusCode::SuccessfulOk,
        request_id: 2,
        attrs: vec![],
        data: vec![],
    })
    .unwrap();
    assert_eq!(job.step, JobStep::CreateJob);
    let bare = IPPResponse {
        version_major: 1,
        version_minor: 1,
        status_code: StatusCode::SuccessfulOk,
        request_id: 2,
        attrs: vec![],
        data: vec![],
    };
    assert_eq!(job.handle_response(&bare), Err(IppError::Protocol));
    assert_eq!(job.step, JobStep::CreateJob);
    assert_eq!(job.job_id, None);
}

#[test]
fn oversized_value_is_refused_on_encode() {
    let req = IPPRequest {
        version_major: 1,
        version_minor: 1,
        operation_id: PrinterOperation::PrintJob,
        request_id: 1,
        attrs: vec![(
            DelimiterOrValueTag::OperationAttributesTag,
            vec![("blob".to_string(), AttributeValue::Unsupported(vec![0u8; 40000]))],
        )],
        data: vec![],
    };
    let mut out = Vec::new();
    assert_eq!(req.write_to_stream(&mut out), Err(IppError::Protocol));
    assert!(out.is_empty());
}
