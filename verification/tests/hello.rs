use zerosni::hello::{
    capture_header, capture_record, extension_hostname, extract_sni, inspect_header, HeaderStep,
    HelloError, HelloExtension, RecordMessage,
};

fn with_len16(body: &[u8]) -> Vec<u8> {
    let mut out = (body.len() as u16).to_be_bytes().to_vec();
    out.extend_from_slice(body);
    out
}

fn sni_extension(entries: &[(u8, &[u8])]) -> Vec<u8> {
    let mut list = Vec::new();
    for (kind, name) in entries {
        list.push(*kind);
        list.extend_from_slice(&with_len16(name));
    }
    let mut out = vec![0, 0];
    out.extend_from_slice(&with_len16(&with_len16(&list)));
    out
}

/// The payload of a handshake record with one ClientHello.
fn client_hello(extensions: Option<&[u8]>) -> Vec<u8> {
    let mut body = vec![3, 3];
    body.extend_from_slice(&[7; 32]);
    body.push(0);
    body.extend_from_slice(&[0, 2, 0x13, 0x01]);
    body.extend_from_slice(&[1, 0]);
    if let Some(extensions) = extensions {
        body.extend_from_slice(&with_len16(extensions));
    }
    let mut out = vec![1, 0];
    out.extend_from_slice(&with_len16(&body));
    out
}

fn header_for(payload: &[u8]) -> [u8; 5] {
    let len = (payload.len() as u16).to_be_bytes();
    [0x16, 3, 1, len[0], len[1]]
}

fn captured_name(extensions: Option<&[u8]>) -> Option<String> {
    let payload = client_hello(extensions);
    let header = header_for(&payload);
    match capture_record(&header, &payload) {
        Ok(capture) => {
            let mut all = header.to_vec();
            all.extend_from_slice(&payload);
            assert_eq!(capture.buffer, all);
            capture.hostname
        }
        Err(e) => panic!("{}", e.message()),
    }
}

#[test]
fn headers_are_inspected() {
    assert_eq!(
        inspect_header(&[0x16, 3, 1, 0x12, 0x34]),
        HeaderStep::ReadPayload(0x1234)
    );
    assert_eq!(
        inspect_header(&[0x16, 3, 1, 0xff, 0xff]),
        HeaderStep::ReadPayload(0xffff)
    );
    assert_eq!(inspect_header(b"GET /"), HeaderStep::NotHandshake);
}

#[test]
fn connections_without_a_handshake_keep_their_first_bytes() {
    let capture = capture_header(b"GET /");
    assert_eq!(capture.hostname, None);
    assert_eq!(capture.buffer, b"GET /");
}

#[test]
fn server_name_is_captured() {
    let extensions = sni_extension(&[(0, b"www.example.com")]);
    assert_eq!(
        captured_name(Some(&extensions)).as_deref(),
        Some("www.example.com")
    );
}

#[test]
fn server_name_is_found_behind_other_extensions() {
    let mut extensions = vec![0, 23, 0, 0];
    extensions.extend_from_slice(&sni_extension(&[(0, b"a.test")]));
    assert_eq!(captured_name(Some(&extensions)).as_deref(), Some("a.test"));
}

#[test]
fn hello_without_a_server_name_is_captured_whole() {
    assert_eq!(captured_name(None), None);
    assert_eq!(captured_name(Some(&[0, 23, 0, 0])), None);
}

#[test]
fn unusable_server_names_are_skipped() {
    let long = [b'x'; 256];
    let extensions = sni_extension(&[
        (1, b"other.test"),
        (0, b"\xff\xfe"),
        (0, &long),
        (0, b"good.test"),
    ]);
    assert_eq!(
        captured_name(Some(&extensions)).as_deref(),
        Some("good.test")
    );
    let longest = [b'x'; 255];
    let extensions = sni_extension(&[(0, &longest)]);
    assert_eq!(captured_name(Some(&extensions)).map(|n| n.len()), Some(255));
}

#[test]
fn extensions_are_searched_in_order() {
    let extensions = vec![
        HelloExtension::Other,
        HelloExtension::Sni(vec![(0, Vec::new())]),
        HelloExtension::Sni(vec![(0, b"first.test".to_vec()), (0, b"second.test".to_vec())]),
        HelloExtension::Sni(vec![(0, b"third.test".to_vec())]),
    ];
    assert_eq!(
        extension_hostname(&extensions).as_deref(),
        Some("first.test")
    );
    assert_eq!(extension_hostname(&Vec::new()), None);
}

#[test]
fn a_hello_without_extensions_ends_the_search() {
    let named = sni_extension(&[(0, b"a.test")]);
    assert_eq!(
        extract_sni(&vec![
            RecordMessage::Other,
            RecordMessage::ClientHello(Some(named.clone()))
        ])
        .as_deref(),
        Some("a.test")
    );
    assert_eq!(
        extract_sni(&vec![
            RecordMessage::ClientHello(None),
            RecordMessage::ClientHello(Some(named))
        ]),
        None
    );
    assert_eq!(extract_sni(&vec![RecordMessage::Other]), None);
}

#[test]
fn broken_records_are_refused() {
    let payload = vec![1, 0, 0, 200, 3, 3];
    assert!(matches!(
        capture_record(&header_for(&payload), &payload),
        Err(HelloError::Unparsable)
    ));
    let payload = vec![0u8; 65532];
    assert!(matches!(
        capture_record(&header_for(&payload), &payload),
        Err(HelloError::TooLarge)
    ));
    assert_eq!(
        HelloError::TooLarge.message(),
        "TLS ClientHello exceeds 65536 bytes"
    );
    assert_eq!(
        HelloError::Unparsable.message(),
        "unable to parse TLS record"
    );
}
