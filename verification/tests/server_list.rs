use eq_network::login::server_list::{build_server_list_response, parse_server_list, ServerEntry};

#[test]
fn synthetic_server_list_round_trips() {
    let mut raw = Vec::new();
    raw.extend_from_slice(b"192.0.2.1\0");
    raw.extend_from_slice(&1u32.to_le_bytes());
    raw.extend_from_slice(&2u32.to_le_bytes());
    raw.extend_from_slice(b"Example Server\0English\0US\0");
    raw.extend_from_slice(&1u32.to_le_bytes());
    raw.extend_from_slice(&42u32.to_le_bytes());
    let server = ServerEntry {
        ip: "192.0.2.1".into(),
        list_id: 1,
        runtime_id: 2,
        name: "Example Server".into(),
        language: "English".into(),
        region: "US".into(),
        status: 1,
        player_count: 42,
        raw,
    };
    let header = [7; 16];
    let encoded = build_server_list_response(&[server], &header);
    let (servers, decoded_header) = parse_server_list(&encoded).expect("synthetic list");
    assert_eq!(decoded_header, header);
    assert_eq!(servers.len(), 1);
    assert_eq!(servers[0].name, "Example Server");
}

fn entry(ip: &str, list_id: u32, name: &str, players: u32) -> ServerEntry {
    let mut raw = Vec::new();
    raw.extend_from_slice(ip.as_bytes());
    raw.push(0);
    raw.extend_from_slice(&list_id.to_le_bytes());
    raw.extend_from_slice(&(list_id + 100).to_le_bytes());
    raw.extend_from_slice(name.as_bytes());
    raw.push(0);
    raw.extend_from_slice(b"English\0US\0");
    raw.extend_from_slice(&1u32.to_le_bytes());
    raw.extend_from_slice(&players.to_le_bytes());
    ServerEntry {
        ip: ip.into(),
        list_id,
        runtime_id: list_id + 100,
        name: name.into(),
        language: "English".into(),
        region: "US".into(),
        status: 1,
        player_count: players,
        raw,
    }
}

#[test]
fn several_entries_round_trip_exactly() {
    let servers = vec![entry("192.0.2.1", 1, "Green", 10), entry("192.0.2.2", 2, "Blue ünïcode", 0)];
    let header = [3u8; 16];
    let encoded = build_server_list_response(&servers, &header);
    assert_eq!(&encoded[0..2], &[0x18, 0x00]);
    assert_eq!(&encoded[18..22], &[2, 0, 0, 0]);
    let (parsed, decoded_header) = parse_server_list(&encoded).unwrap();
    assert_eq!(decoded_header, header);
    assert_eq!(parsed, servers);
}

#[test]
fn server_list_stops_at_count_and_truncation() {
    let servers = vec![entry("a", 1, "One", 1), entry("b", 2, "Two", 2)];
    let mut encoded = build_server_list_response(&servers, &[0; 16]);
    encoded[18] = 1;
    let (parsed, _) = parse_server_list(&encoded).unwrap();
    assert_eq!(parsed, vec![servers[0].clone()]);
    encoded[18] = 5;
    let (parsed, _) = parse_server_list(&encoded).unwrap();
    assert_eq!(parsed.len(), 2);
    let cut = &encoded[..encoded.len() - 3];
    let (parsed, _) = parse_server_list(cut).unwrap();
    assert_eq!(parsed, vec![servers[0].clone()]);
}

#[test]
fn server_list_too_short_and_invalid_text() {
    assert!(parse_server_list(&[0u8; 19]).is_none());
    let mut encoded = build_server_list_response(&[], &[0; 16]);
    assert_eq!(encoded.len(), 22);
    assert_eq!(parse_server_list(&encoded).unwrap().0.len(), 0);
    encoded[18] = 1;
    encoded.extend_from_slice(b"\xFFx\0");
    encoded.extend_from_slice(&[0u8; 8]);
    encoded.extend_from_slice(b"n\0l\0r\0");
    encoded.extend_from_slice(&[0u8; 8]);
    let (parsed, _) = parse_server_list(&encoded).unwrap();
    assert_eq!(parsed[0].ip, "\u{FFFD}x");
    assert_eq!(parsed[0].raw.len(), 3 + 8 + 6 + 8);
}
