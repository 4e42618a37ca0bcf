use coinbase_pro::errors::WebsocketError;
use coinbase_pro::websocket_lite::{
    Frame, FrameLength, FrameParser, ParserState, WebsocketStream, WebsocketStreamConnector,
};

fn default_websocket_upgrade_resp() -> Vec<u8> {
    format!(
        "{}{}{}{}{}{}{}{}{}{}",
        "HTTP/1.1 101 Switching Protocols\r\n",
        "Date: Sun, 10 Apr 2022 13:23:52 GMT\r\n",
        "Connection: upgrade\r\n",
        "Upgrade: websocket\r\n",
        "Sec-WebSocket-Accept: HSmrc0sMlYUkAGmm5OPpG2HaGWk=\r\n",
        "CF-Cache-Status: DYNAMIC\r\n",
        "Expect-CT: max-age=604800, report-uri=\"https://report-uri.cloudflare.com/cdn-cgi/beacon/expect-ct\"\r\n",
        "Server: cloudflare\r\n",
        "CF-RAY: 6f9bccaa4a8f02ed-MIA\r\n",
        "\r\n"
    )
    .as_bytes()
    .to_vec()
}

fn frame_fin_16_0mask_256() -> Vec<u8> {
    let mut v: Vec<u8> = vec![0b10001111, 0b11111110, 0b00000001, 0b00000000, 0x00, 0x00, 0x00, 0x00];
    v.append(&mut [0u8; 256].to_vec());
    v
}

fn frame_fin_16_0mask_256_long() -> Vec<u8> {
    let mut v: Vec<u8> = vec![
        0b10001111, 0b11111111, 0, 0, 0, 0, 0, 0, 0b00000001, 0, 0, 0, 0, 0,
    ];
    v.append(&mut [0u8; 256].to_vec());
    v
}

fn frame_fin_16_0mask_0_long() -> Vec<u8> {
    vec![0b10001111, 0b11111111, 0, 0, 0, 0, 0, 0, 0, 0, 0, 0, 0, 0]
}

fn frame_fin_16_0mask_0_medium() -> Vec<u8> {
    vec![0b10001111, 0b11111110, 0, 0, 0, 0, 0, 0]
}

fn frame_fin_16_1_short() -> Vec<u8> {
    vec![0b10001111, 0b00000001, 0x00]
}

fn frame_fin_16_1_long() -> Vec<u8> {
    vec![0b10001111, 0b01111111, 0, 0, 0, 0, 0, 0, 0, 0b00000001, 0x00]
}

fn frame_fin_16_1_medium() -> Vec<u8> {
    vec![0b10001111, 0b01111110, 0b00000000, 0b00000001, 0x00]
}

fn frame_fin_0() -> Vec<u8> {
    vec![0b10000000, 0x00]
}

/// Feeds a frame to a fresh receiving side and reads everything queued.
fn receive_all(frame: &[u8]) -> Vec<u8> {
    let mut stream = WebsocketStream::new(());
    stream.receive_bytes(frame).unwrap();
    let mut out = Vec::new();
    while stream.has_buffered_frame() {
        let mut chunk = stream.read_payload(usize::MAX);
        if chunk.is_empty() {
            continue;
        }
        out.append(&mut chunk);
    }
    out
}

#[test]
fn websocket_stream_tc2() {
    let frame = frame_fin_16_0mask_256();
    assert_eq!(frame[8..], receive_all(&frame));
}

#[test]
fn websocket_stream_tc3() {
    assert_eq!(receive_all(&frame_fin_0()).len(), 0);
}

#[test]
fn websocket_stream_tc4() {
    let frame = frame_fin_16_0mask_256_long();
    assert_eq!(frame[14..], receive_all(&frame));
}

#[test]
fn websocket_stream_tc5() {
    assert_eq!(0, receive_all(&frame_fin_16_0mask_0_long()).len());
}

#[test]
fn websocket_stream_tc6() {
    let frame = frame_fin_16_0mask_0_medium();
    assert_eq!(frame[8..], receive_all(&frame));
}

#[test]
fn websocket_stream_tc7() {
    assert_eq!(1, receive_all(&frame_fin_16_1_short()).len());
}

#[test]
fn websocket_stream_tc8() {
    assert_eq!(1, receive_all(&frame_fin_16_1_medium()).len());
}

#[test]
fn websocket_stream_tc9() {
    assert_eq!(1, receive_all(&frame_fin_16_1_long()).len());
}

#[test]
fn websocket_stream_sec_key() {
    let expected_key = "x3JJHMbDL1EzLkh9GBhXDw==";
    let expected_accept = "HSmrc0sMlYUkAGmm5OPpG2HaGWk=";
    assert_eq!(&WebsocketStreamConnector::sec_accept(expected_key), expected_accept);
}

#[test]
fn parser_state_display() {
    assert_eq!(ParserState::FinalAndOpcode.message(), "FinalAndOpcode");
    assert_eq!(ParserState::LongLength(0).message(), "LongLength, Index: 0");
    assert_eq!(ParserState::Mask(0).message(), "Mask, Index: 0");
    assert_eq!(ParserState::MaskAndLength.message(), "MaskAndLength");
    assert_eq!(ParserState::MediumLength(0).message(), "MediumLength, Index: 0");
    assert_eq!(ParserState::Payload(12).message(), "Payload, Index: 12");
}

#[test]
fn parser_reads_frames_byte_by_byte() {
    let mut parser = FrameParser::default();
    let frame = frame_fin_16_1_medium();
    let mut payloads = Vec::new();
    for byte in &frame {
        if let Some(f) = parser.process_byte(byte).unwrap() {
            payloads.push(f.payload);
        }
    }
    assert_eq!(payloads, vec![vec![0u8]]);
}

#[test]
fn written_frame_round_trips() {
    let payload: Vec<u8> = (0..300u32).map(|i| (i % 251) as u8).collect();
    let frame = Frame::from_payload_with_mask(&payload, [1, 2, 3, 4]).into_data();
    // Medium length field with the mask bit set.
    assert_eq!(frame[0], 0b10000001);
    assert_eq!(frame[1], 0b11111110);
    assert_eq!(frame[2], 1);
    assert_eq!(frame[3], 44);
    assert_eq!(&frame[4..8], &[1, 2, 3, 4]);
    assert_eq!(frame[8], payload[0] ^ 1);
    assert_eq!(receive_all(&frame), payload);
}

#[test]
fn random_mask_frame_round_trips() {
    let payload = b"test write".to_vec();
    let (frame, header) = WebsocketStream::<()>::frame_for_write(&payload);
    assert_eq!(header, 6);
    assert_eq!(frame.len(), 16);
    assert_eq!(receive_all(&frame), payload);
    assert_eq!(WebsocketStream::<()>::payload_written(16, header), 10);
    assert_eq!(WebsocketStream::<()>::payload_written(3, header), 0);
}

#[test]
fn frame_length_fields() {
    assert_eq!(FrameLength::from(5u64).to_vec(), vec![5]);
    assert_eq!(FrameLength::from(300u64).to_vec(), vec![126, 1, 44]);
    assert_eq!(FrameLength::from(70000u64).to_vec(), vec![127, 0, 0, 0, 0, 0, 1, 17, 112]);
}

#[test]
fn read_payload_takes_part_of_a_frame() {
    let mut stream = WebsocketStream::new(());
    stream.receive_bytes(&frame_fin_16_0mask_256()).unwrap();
    assert_eq!(stream.read_payload(100).len(), 100);
    assert_eq!(stream.read_payload(1000).len(), 156);
    // The emptied frame stays queued until a read finds nothing in it.
    assert!(stream.has_buffered_frame());
    assert_eq!(stream.read_payload(1000).len(), 0);
    assert!(!stream.has_buffered_frame());
}

#[test]
fn upgrade_response_accepted() {
    let resp = default_websocket_upgrade_resp();
    let connector = WebsocketStreamConnector::default();
    assert!(WebsocketStreamConnector::is_end_of_http_head(&resp));
    assert!(connector.check_upgrade_response(&resp, "HSmrc0sMlYUkAGmm5OPpG2HaGWk=").is_ok());
    let wrong = connector.check_upgrade_response(&resp, "AAAAAAAAAAAAAAAAAAAAAAAAAAA=");
    assert!(matches!(wrong, Err(WebsocketError::WebsocketUpgradeError)));
    let unchecked = WebsocketStreamConnector::new_no_sec();
    assert!(unchecked.check_upgrade_response(&resp, "AAAAAAAAAAAAAAAAAAAAAAAAAAA=").is_ok());
}

#[test]
fn handshake_request_names_host_and_key() {
    let request = WebsocketStreamConnector::handshake_request("ws-feed.exchange.coinbase.com", 443, "abc=");
    assert!(request.starts_with("GET / HTTP/1.1\r\n"));
    assert!(request.contains("Host: ws-feed.exchange.coinbase.com:443\r\n"));
    assert!(request.contains("Sec-WebSocket-Key: abc=\r\n"));
    assert!(request.ends_with("\r\n\r\n"));
}

#[test]
fn fresh_keys_are_base64_of_two_bytes() {
    let key = WebsocketStreamConnector::new_sec_key();
    assert_eq!(key.len(), 4);
    assert!(key.ends_with("="));
}

#[test]
fn websocket_targets_are_parsed() {
    let target = coinbase_pro::api::websocket_target("https://ws-feed.exchange.coinbase.com").unwrap();
    assert_eq!(target.url(), "https://ws-feed.exchange.coinbase.com/");
    assert_eq!(target.domain(), Some("ws-feed.exchange.coinbase.com".to_string()));

    let address = coinbase_pro::api::websocket_target("https://127.0.0.1:8443/feed").unwrap();
    assert_eq!(address.domain(), None);
    let no_domain = WebsocketStreamConnector::domain_of(address.url(), address.domain());
    assert!(matches!(no_domain, Err(WebsocketError::NoDomainError { ref url }) if url == "https://127.0.0.1:8443/feed"));

    match coinbase_pro::api::websocket_target("not a url") {
        Err(WebsocketError::URLParseError { source, url }) => {
            assert_eq!(url, "not a url");
            assert_eq!(source, "relative URL without a base");
        }
        _ => panic!("expected a parse error"),
    }
}

#[test]
fn handshake_uses_a_fresh_two_byte_key() {
    let (request, accept) = WebsocketStreamConnector::start_handshake("example.com", 443);
    let key_line = request.lines().find(|l| l.starts_with("Sec-WebSocket-Key: ")).unwrap();
    let key = &key_line["Sec-WebSocket-Key: ".len()..];
    assert_eq!(key.len(), 4);
    assert_eq!(accept, WebsocketStreamConnector::sec_accept(key));
}

#[test]
fn successive_reads_give_each_payload_whole() {
    let mut stream = WebsocketStream::new(());
    let mut frames = frame_fin_16_0mask_256();
    frames.append(&mut frame_fin_16_1_short());
    stream.receive_bytes(&frames).unwrap();
    let mut first = Vec::new();
    loop {
        let chunk = stream.read_payload(100);
        if chunk.is_empty() {
            break;
        }
        first.extend(chunk);
    }
    assert_eq!(first, vec![0u8; 256]);
    assert_eq!(stream.read_payload(100), vec![0u8]);
    assert_eq!(stream.read_payload(100), Vec::<u8>::new());
    assert!(!stream.has_buffered_frame());
}

#[test]
fn written_frame_completes_at_its_last_byte() {
    let payload = b"hello websocket".to_vec();
    let frame = Frame::from_payload(&payload).into_data();
    let mut parser = FrameParser::default();
    for byte in &frame[..frame.len() - 1] {
        assert!(parser.process_byte(byte).unwrap().is_none());
    }
    let last = parser.process_byte(&frame[frame.len() - 1]).unwrap().unwrap();
    assert_eq!(last.payload, payload);
}

#[test]
fn parsed_target_keeps_the_url_value() {
    let target = coinbase_pro::api::websocket_target("https://ws-feed.exchange.coinbase.com").unwrap();
    assert_eq!(target.parsed().as_str(), target.url().as_str());
    assert_eq!(target.parsed().domain(), Some("ws-feed.exchange.coinbase.com"));
}

#[test]
fn reads_with_varying_room_and_receives_between() {
    let mut stream = WebsocketStream::new(());
    stream.receive_bytes(&frame_fin_16_1_medium()).unwrap();
    let mut got = Vec::new();
    got.extend(stream.read_payload(7));
    stream.receive_bytes(&frame_fin_16_0mask_256()).unwrap();
    assert_eq!(stream.read_payload(3), Vec::<u8>::new());
    assert_eq!(got, vec![0u8]);
    let mut second = Vec::new();
    for room in [1usize, 50, 200, 9] {
        second.extend(stream.read_payload(room));
    }
    assert_eq!(second.len(), 256);
    assert_eq!(stream.read_payload(5), Vec::<u8>::new());
    assert!(!stream.has_buffered_frame());
}
