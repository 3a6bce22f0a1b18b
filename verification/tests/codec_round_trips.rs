use qpack::codec::Commit;
use qpack::codec::DecodedHeaders;
use qpack::codec::Qpack;
use qpack::table::Table;
use qpack::types::Header;
use qpack::types::HeaderString;
use qpack::types::QpackError;

const STREAM_ID: u16 = 4;

fn get_request_headers(remove_value: bool) -> Vec<Header> {
    let mut headers = vec![
        Header::from_str(":authority", "example.com"),
        Header::from_str(":method", "GET"),
        Header::from_str(":path", "/"),
        Header::from_str(":scheme", "https"),
        Header::from_str("accept", "text/html,application/xhtml+xml,application/xml;q=0.9,image/avif,image/webp,image/apng,*/*;q=0.8,application/signed-exchange;v=b3;q=0.9"),
        Header::from_str("accept-encoding", "gzip, deflate, br"),
        Header::from_str("accept-language", "en-US,en;q=0.9"),
        Header::from_str("sec-ch-ua", "\"Chromium\";v=\"92\", \" Not A;Brand\";v=\"99\", \"Google Chrome\";v=\"92\""),
        Header::from_str("sec-ch-ua-mobile", "?0"),
        Header::from_str("sec-fetch-dest", "document"),
        Header::from_str("sec-fetch-mode", "navigate"),
        Header::from_str("sec-fetch-site", "none"),
        Header::from_str("sec-fetch-user", "?1"),
        Header::from_str("upgrade-insecure-requests", "1"),
        Header::from_str("user-agent", "Mozilla/5.0 (Windows NT 10.0; Win64; x64) AppleWebKit/537.36 (KHTML, like Gecko) Chrome/92.0.4515.107 Safari/537.36")
    ];
    if remove_value {
        for header in headers.iter_mut() {
            header.set_value(HeaderString::new(Vec::new(), false));
        }
    }
    headers
}

fn get_response_headers(remove_value: bool) -> Vec<Header> {
    let mut headers = vec![
        Header::from_str("age", "316723"),
        Header::from_str("cache-control", "max-age=604800"),
        Header::from_str("content-encoding", "gzip"),
        Header::from_str("content-length", "648"),
        Header::from_str("content-type", "text/html; charset=UTF-8"),
        Header::from_str("date", "Tue, 10 Aug 2021 06:59:14 GMT"),
        Header::from_str("etag", "\"3147526947+ident+gzip\""),
        Header::from_str("expires", "Tue, 17 Aug 2021 06:59:14 GMT"),
        Header::from_str("last-modified", "Thu, 17 Oct 2019 07:18:26 GMT"),
        Header::from_str("server", "ECS (sab/5708)"),
        Header::from_str("vary", "Accept-Encoding"),
        Header::from_str("x-cache", "HIT"),
    ];
    if remove_value {
        for header in headers.iter_mut() {
            header.set_value(HeaderString::new(Vec::new(), false));
        }
    }
    headers
}

fn commit(peer: &mut Qpack, planned: Result<Commit, QpackError>) {
    match planned {
        Ok(c) => match peer.commit(c) {
            Ok(()) => (),
            Err(e) => {
                println!("{:?}", e);
                assert!(false);
            },
        },
        Err(e) => {
            println!("{:?}", e);
            assert!(false);
        },
    }
}

fn set_table_capacity(client: &mut Qpack, server: &mut Qpack, table_size: usize) {
    let mut encoded = vec![];
    let commit_func = client.encode_set_dynamic_table_capacity(&mut encoded, table_size);
    commit(client, commit_func);
    let commit_func = server.decode_encoder_instruction(&encoded);
    commit(server, commit_func);
}

fn insert_headers(client: &mut Qpack, server: &mut Qpack, headers: Vec<Header>) {
    if !client.is_insertable(&headers) {
        assert!(false);
    }
    let mut encoded = vec![];
    let commit_func = client.encode_insert_headers(&mut encoded, headers);
    commit(client, commit_func);
    let commit_func = server.decode_encoder_instruction(&encoded);
    commit(server, commit_func);
}

fn send_headers(client: &mut Qpack, server: &mut Qpack, headers: Vec<Header>) -> bool {
    let mut encoded = vec![];
    let commit_func = client.encode_headers(&mut encoded, headers.clone(), STREAM_ID);
    commit(client, commit_func);
    match server.decode_headers(&encoded, STREAM_ID).unwrap() {
        DecodedHeaders::Done { headers: out, referenced_dynamic } => {
            assert_eq!(headers, out);
            referenced_dynamic
        },
        DecodedHeaders::Blocked { .. } => {
            assert!(false);
            false
        },
    }
}

fn section_ackowledgment(client: &mut Qpack, server: &mut Qpack) {
    let mut encoded = vec![];
    let commit_func = server.encode_section_ackowledgment(&mut encoded, STREAM_ID);
    commit(server, commit_func);
    let commit_func = client.decode_decoder_instruction(&encoded);
    commit(client, commit_func);
}

fn gen_client_server_instances(blocked_streams_limit: u16, table_size: usize) -> (Qpack, Qpack) {
    let mut qpack_client = Qpack::new(blocked_streams_limit, table_size);
    let mut qpack_server = Qpack::new(blocked_streams_limit, table_size);
    set_table_capacity(&mut qpack_client, &mut qpack_server, table_size);
    (qpack_client, qpack_server)
}

fn insert_send_ack(encoder: &mut Qpack, decoder: &mut Qpack, headers: Vec<Header>) {
    insert_headers(encoder, decoder, headers.clone());
    let refer_dynamic_table = send_headers(encoder, decoder, headers.clone());
    if refer_dynamic_table {
        section_ackowledgment(encoder, decoder);
    }
}

#[test]
fn simple_get() {
    let (mut qpack_encoder, mut qpack_decoder) = gen_client_server_instances(1, 1024);
    let request_headers = get_request_headers(false);
    let refer_dynamic_table =
        send_headers(&mut qpack_encoder, &mut qpack_decoder, request_headers.clone());
    assert!(!refer_dynamic_table);
}

#[test]
fn simple_get_huffman() {
    let (mut qpack_encoder, mut qpack_decoder) = gen_client_server_instances(1, 1024);
    let mut request_headers = get_request_headers(false);
    request_headers.iter_mut().for_each(|header| header.set_huffman((true, true)));
    let refer_dynamic_table =
        send_headers(&mut qpack_encoder, &mut qpack_decoder, request_headers.clone());
    assert!(!refer_dynamic_table);

    request_headers.iter_mut().for_each(|header| header.set_huffman((true, false)));
    let refer_dynamic_table =
        send_headers(&mut qpack_encoder, &mut qpack_decoder, request_headers.clone());
    assert!(!refer_dynamic_table);

    request_headers.iter_mut().for_each(|header| header.set_huffman((false, true)));
    let refer_dynamic_table =
        send_headers(&mut qpack_encoder, &mut qpack_decoder, request_headers.clone());
    assert!(!refer_dynamic_table);
}

#[test]
fn simple_get_sensitive() {
    let (mut qpack_encoder, mut qpack_decoder) = gen_client_server_instances(1, 1024);
    let mut request_headers = get_request_headers(false);
    request_headers.iter_mut().for_each(|header| header.set_sensitive(true));
    let refer_dynamic_table =
        send_headers(&mut qpack_encoder, &mut qpack_decoder, request_headers);
    assert!(!refer_dynamic_table);
}

#[test]
fn simple_get_huffman_sensitive() {
    let (mut qpack_encoder, mut qpack_decoder) = gen_client_server_instances(1, 1024);
    let mut request_headers = get_request_headers(false);
    request_headers.iter_mut().for_each(|header| header.set_sensitive(true));
    request_headers.iter_mut().for_each(|header| header.set_huffman((true, true)));
    let refer_dynamic_table =
        send_headers(&mut qpack_encoder, &mut qpack_decoder, request_headers.clone());
    assert!(!refer_dynamic_table);

    request_headers.iter_mut().for_each(|header| header.set_huffman((true, false)));
    let refer_dynamic_table =
        send_headers(&mut qpack_encoder, &mut qpack_decoder, request_headers.clone());
    assert!(!refer_dynamic_table);

    request_headers.iter_mut().for_each(|header| header.set_huffman((false, true)));
    let refer_dynamic_table =
        send_headers(&mut qpack_encoder, &mut qpack_decoder, request_headers.clone());
    assert!(!refer_dynamic_table);
}

#[test]
fn insert_simple_headers() {
    let (mut qpack_encoder, mut qpack_decoder) = gen_client_server_instances(1, 4096);
    let request_headers = get_request_headers(false);
    insert_headers(&mut qpack_encoder, &mut qpack_decoder, request_headers);
}

#[test]
fn insert_send_recv_refer_name_post() {
    let (mut qpack_encoder, mut qpack_decoder) = gen_client_server_instances(1, 4096);
    let request_headers = get_request_headers(false);
    insert_headers(&mut qpack_encoder, &mut qpack_decoder, request_headers);
    let mut request_headers = get_request_headers(true);
    request_headers = request_headers[..request_headers.len() / 2 - 2].to_vec();

    let refer_dynamic_table =
        send_headers(&mut qpack_encoder, &mut qpack_decoder, request_headers);
    assert!(refer_dynamic_table);
}

fn insert_send_recv_many_prep(num: usize) -> Vec<Header> {
    let mut headers = vec![];
    headers.push(Header::from_str("", ""));
    let mut i = 0;
    loop {
        let header = &headers[i];
        let mut base_name = String::from_utf8(header.get_name().value.clone()).unwrap();
        let mut base_value = String::from_utf8(header.get_value().value.clone()).unwrap();

        for j in 0..26 {
            base_name.push((b'a' + j) as char);
            base_value.push((b'a' + j) as char);
            headers.push(Header::from_str(&base_name, &base_value));
            base_name.pop();
            base_value.pop();
        }
        if num <= headers.len() {
            break;
        }
        i += 1;
    }
    headers
}

#[test]
fn insert_send_recv_many_at_once() {
    let num = 1024 * 20;
    let (mut qpack_encoder, mut qpack_decoder) = gen_client_server_instances(1, num * 2096);
    let headers = insert_send_recv_many_prep(num);
    insert_send_ack(&mut qpack_encoder, &mut qpack_decoder, headers);
}

#[test]
fn insert_send_recv_many_one_by_one() {
    let num = 1024 * 20;
    let (mut qpack_encoder, mut qpack_decoder) = gen_client_server_instances(1, num * 2096);
    let mut headers = insert_send_recv_many_prep(num);

    let mut batch_size = 1;
    while 0 != headers.len() {
        let boundary = if batch_size <= headers.len() {
            batch_size
        } else {
            headers.len()
        };
        let request_headers = headers[..boundary].to_vec();
        headers = headers[boundary..].to_vec();
        insert_send_ack(&mut qpack_encoder, &mut qpack_decoder, request_headers);
        batch_size += 1;
    }
}

#[test]
fn insert_send_recv() {
    let (mut qpack_client, mut qpack_server) = gen_client_server_instances(1, 4096);

    let request_headers = get_request_headers(false);
    insert_send_ack(&mut qpack_client, &mut qpack_server, request_headers);
}

#[test]
fn insert_header_key_send_recv() {
    let (mut client, mut server) = gen_client_server_instances(1, 4096);
    let headers = get_request_headers(true);
    insert_headers(&mut client, &mut server, headers);
    let headers = get_request_headers(false);
    let refer_dynamic_table = send_headers(&mut client, &mut server, headers);
    assert!(refer_dynamic_table);
}

#[test]
fn request_response() {
    let (mut qpack_client, mut qpack_server) = gen_client_server_instances(1, 1024);
    let request_headers = get_request_headers(false);
    // The fifteen request fields outweigh the 1024-octet capacity, and an
    // entry may be evicted only once the peer has acknowledged it, so this
    // batch cannot be inserted; the block still round-trips through the
    // static table and literal forms.
    assert!(!qpack_client.is_insertable(&request_headers));
    let refer_dynamic_table =
        send_headers(&mut qpack_client, &mut qpack_server, request_headers);
    assert!(!refer_dynamic_table);
    // The response fields fit, and round-trip through the dynamic table.
    let response_headers = get_response_headers(false);
    insert_send_ack(&mut qpack_server, &mut qpack_client, response_headers);
}

#[test]
fn rfc_appendix_b1_encode() {
    let mut qpack = Qpack::new(1, 1024);
    let headers = vec![Header::from_str(":path", "/index.html")];
    let mut encoded = vec![];
    let commit_func = qpack.encode_headers(&mut encoded, headers, STREAM_ID);
    commit(&mut qpack, commit_func);
    assert_eq!(
        encoded,
        vec![
            0x00, 0x00, 0x51, 0x0b, 0x2f, 0x69, 0x6e, 0x64, 0x65, 0x78, 0x2e, 0x68, 0x74, 0x6d,
            0x6c,
        ]
    );
}

#[test]
fn rfc_appendix_b1_decode() {
    let mut qpack = Qpack::new(1, 1024);
    let wire = vec![
        0x00, 0x00, 0x51, 0x0b, 0x2f, 0x69, 0x6e, 0x64, 0x65, 0x78, 0x2e, 0x68, 0x74, 0x6d, 0x6c,
    ];
    match qpack.decode_headers(&wire, STREAM_ID).unwrap() {
        DecodedHeaders::Done { headers, referenced_dynamic } => {
            assert_eq!(headers, vec![Header::from_str(":path", "/index.html")]);
            assert_eq!(referenced_dynamic, false);
        },
        DecodedHeaders::Blocked { .. } => assert!(false),
    }
}

#[test]
fn encode_indexed_simple() {
    let mut qpack = Qpack::new(1, 1024);
    let headers = vec![Header::from_str(":path", "/")];
    let mut encoded = vec![];
    let commit_func = qpack.encode_headers(&mut encoded, headers, STREAM_ID);
    commit(&mut qpack, commit_func);
    assert_eq!(encoded, vec![0x00, 0x00, 0xc1]);
}

#[test]
fn decode_indexed_simple() {
    let mut qpack = Qpack::new(1, 1024);
    let wire = vec![0x00, 0x00, 0xc1];
    match qpack.decode_headers(&wire, STREAM_ID).unwrap() {
        DecodedHeaders::Done { headers, referenced_dynamic } => {
            assert_eq!(headers, vec![Header::from_str(":path", "/")]);
            assert_eq!(referenced_dynamic, false);
        },
        DecodedHeaders::Blocked { .. } => assert!(false),
    }
}

#[test]
fn encode_set_dynamic_table_capacity() {
    let qpack = Qpack::new(1, 1024);
    let mut encoded = vec![];
    let _ = qpack.encode_set_dynamic_table_capacity(&mut encoded, 220);
    assert_eq!(encoded, vec![0x3f, 0xbd, 0x01]);
}

#[test]
fn encode_insert_with_name_reference() {
    let mut qpack_encoder = Qpack::new(1, 1024);
    let mut qpack_decoder = Qpack::new(1, 1024);

    // Set the capacity and insert two fields via static name references.
    {
        let mut encoded = vec![];
        let capacity = 220;
        let commit_func = qpack_encoder.encode_set_dynamic_table_capacity(&mut encoded, capacity);
        commit(&mut qpack_encoder, commit_func);
        let headers = vec![
            Header::from_str(":authority", "www.example.com"),
            Header::from_str(":path", "/sample/path"),
        ];

        let commit_func = qpack_encoder.encode_insert_headers(&mut encoded, headers);
        assert_eq!(
            encoded,
            vec![
                0x3f, 0xbd, 0x01, 0xc0, 0x0f, 0x77, 0x77, 0x77, 0x2e, 0x65, 0x78, 0x61, 0x6d,
                0x70, 0x6c, 0x65, 0x2e, 0x63, 0x6f, 0x6d, 0xc1, 0x0c, 0x2f, 0x73, 0x61, 0x6d,
                0x70, 0x6c, 0x65, 0x2f, 0x70, 0x61, 0x74, 0x68,
            ]
        );
        commit(&mut qpack_encoder, commit_func);

        let commit_func = qpack_decoder.decode_encoder_instruction(&encoded);
        commit(&mut qpack_decoder, commit_func);
    }

    // Send a field block referencing both entries post-base.
    {
        let mut encoded = vec![];
        let headers = vec![
            Header::from_str(":authority", "www.example.com"),
            Header::from_str(":path", "/sample/path"),
        ];
        let commit_func = qpack_encoder.encode_headers(&mut encoded, headers.clone(), STREAM_ID);
        commit(&mut qpack_encoder, commit_func);
        assert_eq!(encoded, vec![0x03, 0x81, 0x10, 0x11]);

        match qpack_decoder.decode_headers(&encoded, STREAM_ID).unwrap() {
            DecodedHeaders::Done { headers: decoded, referenced_dynamic } => {
                assert_eq!(decoded, headers);
                assert_eq!(referenced_dynamic, true);
            },
            DecodedHeaders::Blocked { .. } => assert!(false),
        }
    }

    // The decoder acknowledges the section.
    {
        let mut encoded = vec![];
        let commit_func = qpack_decoder.encode_section_ackowledgment(&mut encoded, STREAM_ID);
        assert_eq!(encoded, vec![0x84]);
        commit(&mut qpack_decoder, commit_func);

        let commit_func = qpack_encoder.decode_decoder_instruction(&encoded);
        commit(&mut qpack_encoder, commit_func);
        assert_eq!(qpack_encoder.table.dynamic_table.known_received_count, 2);
    }

    // Insert a literal field.
    {
        let mut encoded = vec![];
        let headers = vec![Header::from_str("custom-key", "custom-value")];
        let commit_func = qpack_encoder.encode_insert_headers(&mut encoded, headers);
        assert_eq!(
            encoded,
            vec![
                0x4a, 0x63, 0x75, 0x73, 0x74, 0x6f, 0x6d, 0x2d, 0x6b, 0x65, 0x79, 0x0c, 0x63,
                0x75, 0x73, 0x74, 0x6f, 0x6d, 0x2d, 0x76, 0x61, 0x6c, 0x75, 0x65,
            ]
        );
        commit(&mut qpack_encoder, commit_func);

        let commit_func = qpack_decoder.decode_encoder_instruction(&encoded);
        commit(&mut qpack_decoder, commit_func);
    }

    // The decoder reports the insertion.
    {
        let mut encoded = vec![];
        let commit_func = qpack_decoder.encode_insert_count_increment(&mut encoded);
        assert_eq!(encoded, vec![0x01]);
        commit(&mut qpack_decoder, commit_func);

        let commit_func = qpack_encoder.decode_decoder_instruction(&encoded);
        commit(&mut qpack_encoder, commit_func);
    }

    // Re-inserting a known field duplicates it.
    {
        let mut encoded = vec![];
        let headers = vec![Header::from_str(":authority", "www.example.com")];
        let commit_func = qpack_encoder.encode_insert_headers(&mut encoded, headers);
        assert_eq!(encoded, vec![0x02]);
        commit(&mut qpack_encoder, commit_func);

        let commit_func = qpack_decoder.decode_encoder_instruction(&encoded);
        commit(&mut qpack_decoder, commit_func);
    }

    // A block referencing three dynamic entries, one of them post-base.
    {
        let mut encoded = vec![];
        let headers = vec![
            Header::from_str(":authority", "www.example.com"),
            Header::from_str(":path", "/"),
            Header::from_str("custom-key", "custom-value"),
        ];
        let commit_func = qpack_encoder.encode_headers(&mut encoded, headers.clone(), 8);
        commit(&mut qpack_encoder, commit_func);
        assert_eq!(encoded, vec![0x05, 0x00, 0x80, 0xc1, 0x81]);

        match qpack_decoder.decode_headers(&encoded, 8).unwrap() {
            DecodedHeaders::Done { headers: decoded, referenced_dynamic } => {
                assert_eq!(decoded, headers);
                assert_eq!(referenced_dynamic, true);
            },
            DecodedHeaders::Blocked { .. } => assert!(false),
        }
    }

    // The decoder cancels the stream.
    {
        let mut encoded = vec![];
        let commit_func = qpack_decoder.encode_stream_cancellation(&mut encoded, 8);
        assert_eq!(encoded, vec![0x48]);
        commit(&mut qpack_decoder, commit_func);

        let commit_func = qpack_encoder.decode_decoder_instruction(&encoded);
        commit(&mut qpack_encoder, commit_func);
    }

    // A name match against a dynamic entry inserts with a name reference.
    {
        let mut encoded = vec![];
        let headers = vec![Header::from_str("custom-key", "custom-value2")];
        let commit_func = qpack_encoder.encode_insert_headers(&mut encoded, headers);
        assert_eq!(
            encoded,
            vec![
                0x81, 0x0d, 0x63, 0x75, 0x73, 0x74, 0x6f, 0x6d, 0x2d, 0x76, 0x61, 0x6c, 0x75,
                0x65, 0x32,
            ]
        );
        commit(&mut qpack_encoder, commit_func);

        let commit_func = qpack_decoder.decode_encoder_instruction(&encoded);
        commit(&mut qpack_decoder, commit_func);
    }
}

// A sensitive field is never reused through an Indexed representation, even
// when the dynamic table holds an exact match; the N bit is set on the
// literal and survives the round trip.
#[test]
fn sensitive_header_not_indexed() {
    let (mut client, mut server) = gen_client_server_instances(1, 1024);
    let headers = vec![Header::from_str("custom-key", "custom-value")];
    insert_headers(&mut client, &mut server, headers);

    let mut sensitive = Header::from_str("custom-key", "custom-value");
    sensitive.set_sensitive(true);
    let mut encoded = vec![];
    let commit_func = client.encode_headers(&mut encoded, vec![sensitive.clone()], STREAM_ID);
    commit(&mut client, commit_func);
    // The representation after the two prefix bytes must be a literal with
    // the N bit, not an Indexed line.
    assert_eq!(encoded[2] & 0b1100_0000, 0b0100_0000);
    assert_eq!(encoded[2] & 0b0010_0000, 0b0010_0000);

    match server.decode_headers(&encoded, STREAM_ID).unwrap() {
        DecodedHeaders::Done { headers: decoded, referenced_dynamic } => {
            assert_eq!(decoded, vec![sensitive]);
            assert!(decoded[0].sensitive);
            assert!(referenced_dynamic);
        },
        DecodedHeaders::Blocked { .. } => assert!(false),
    }
}

// A decoder at its blocked-stream limit fails a block that requires unseen
// insertions at once; below the limit it suspends, and the block completes
// once the insertions arrive.
#[test]
fn blocked_stream_limit() {
    let (mut client, mut server) = gen_client_server_instances(1, 1024);
    let headers = vec![Header::from_str("custom-key", "custom-value")];

    // Plan the insertions but do not deliver them to the server yet.
    let mut instructions = vec![];
    let commit_func = client.encode_insert_headers(&mut instructions, headers.clone());
    commit(&mut client, commit_func);

    let mut block = vec![];
    let commit_func = client.encode_headers(&mut block, headers.clone(), STREAM_ID);
    commit(&mut client, commit_func);

    // First stream: suspends.
    match server.decode_headers(&block, STREAM_ID).unwrap() {
        DecodedHeaders::Blocked { required_insert_count } => {
            assert_eq!(required_insert_count, 1);
        },
        DecodedHeaders::Done { .. } => assert!(false),
    }
    // Second stream: the limit of one is reached, so it fails at once.
    assert_eq!(
        server.decode_headers(&block, 6).unwrap_err(),
        QpackError::DecompressionFailed
    );

    // The insertions arrive; the suspended stream finishes.
    let commit_func = server.decode_encoder_instruction(&instructions);
    commit(&mut server, commit_func);
    let (decoded, referenced_dynamic) =
        server.finish_blocked_decode(&block, STREAM_ID).unwrap();
    assert_eq!(decoded, headers);
    assert!(referenced_dynamic);
}

// Decoder-stream validation: an acknowledgement for an unknown stream and a
// zero insert-count increment are decoder-stream errors.
#[test]
fn decoder_stream_validation() {
    let qpack = Qpack::new(1, 1024);
    // Section Acknowledgment for stream 4 with no pending section.
    assert_eq!(
        qpack.decode_decoder_instruction(&vec![0x84]).unwrap_err(),
        QpackError::DecoderStreamError
    );
    // Insert Count Increment of zero.
    assert_eq!(
        qpack.decode_decoder_instruction(&vec![0x00]).unwrap_err(),
        QpackError::DecoderStreamError
    );
}

// An Indexed line naming a static index beyond the table is malformed, as
// is a capacity instruction beyond the configured maximum.
#[test]
fn out_of_range_references() {
    let mut qpack = Qpack::new(1, 1024);
    // Static index 99 in a block with a zero prefix.
    let wire = vec![0x00, 0x00, 0xff, 0x24];
    assert_eq!(
        qpack.decode_headers(&wire, STREAM_ID).unwrap_err(),
        QpackError::DecompressionFailed
    );
    // A capacity above the configured maximum is planned but must be
    // rejected when committed by the receiving side.
    let mut receiver = Qpack::new(1, 16);
    let planned = receiver.decode_encoder_instruction(&vec![0x3f, 0xbd, 0x01]).unwrap();
    assert_eq!(receiver.commit(planned).unwrap_err(), QpackError::EncoderStreamError);
}

// The static table holds the fixed fields of the protocol at their fixed
// indices.
#[test]
fn static_table_contents() {
    let table = Table::new(0);
    let pairs = [
        (0usize, ":authority", ""),
        (1, ":path", "/"),
        (17, ":method", "GET"),
        (23, ":scheme", "https"),
        (25, ":status", "200"),
        (98, "x-frame-options", "sameorigin"),
    ];
    for (idx, name, value) in pairs {
        let h = table.get_header_from_static(idx).unwrap();
        assert_eq!(h, Header::from_str(name, value));
    }
    assert_eq!(
        table.get_header_from_static(99).unwrap_err(),
        QpackError::DecompressionFailed
    );
}
