use sf::addr::{deserialize_socket_addr, make_broadcast_addr, serialize_socket_addr, IpAddress, SocketAddress};
use sf::manifest::{decode_manifest, encode_manifest, parse_header, FileEntry};
use sf::TransferError;

fn entry(path: &str, size: u64) -> FileEntry {
    FileEntry { size, path: path.as_bytes().to_vec() }
}

fn pairs(entries: &[FileEntry]) -> Vec<(u64, Vec<u8>)> {
    entries.iter().map(|e| (e.size, e.path.clone())).collect()
}

#[test]
fn round_trip_empty() {
    let buf = encode_manifest(&Vec::new()).unwrap();
    assert_eq!(buf.len(), 8);
    let decoded = decode_manifest(&buf).unwrap();
    assert!(decoded.is_empty());
}

#[test]
fn round_trip_single() {
    let files = vec![entry("dir/file.txt", 11)];
    let buf = encode_manifest(&files).unwrap();
    let decoded = decode_manifest(&buf).unwrap();
    assert_eq!(pairs(&decoded), vec![(11, b"dir/file.txt".to_vec())]);
}

#[test]
fn round_trip_many() {
    let files = vec![
        entry("docs/readme.txt", 11),
        entry("docs/sub/a.bin", 0),
        entry("x", u64::MAX),
        entry("", 7),
    ];
    let buf = encode_manifest(&files).unwrap();
    let decoded = decode_manifest(&buf).unwrap();
    assert_eq!(pairs(&decoded), pairs(&files));
}

#[test]
fn manifest_layout_exact() {
    let files = vec![entry("ab", 3)];
    let buf = encode_manifest(&files).unwrap();
    // magic, version, total length, then size, name length, name
    let mut expected = Vec::new();
    expected.extend_from_slice(b"sf-");
    expected.push(3u8);
    expected.extend_from_slice(&22u32.to_le_bytes());
    expected.extend_from_slice(&3u64.to_le_bytes());
    expected.extend_from_slice(&2u32.to_le_bytes());
    expected.extend_from_slice(b"ab");
    assert_eq!(buf, expected);
}

#[test]
fn backslash_normalization() {
    let files = vec![entry("dir\\sub\\f.txt", 1)];
    let buf = encode_manifest(&files).unwrap();
    let decoded = decode_manifest(&buf).unwrap();
    assert_eq!(decoded[0].path, b"dir/sub/f.txt".to_vec());
    // the raw buffer carries no backslash at all
    assert!(!buf.contains(&b'\\'));
}

#[test]
fn version_mismatch_rejected() {
    let files = vec![entry("a", 1)];
    let mut buf = encode_manifest(&files).unwrap();
    buf[3] = 2;
    assert_eq!(decode_manifest(&buf).unwrap_err(), TransferError::BadVersion);
}

#[test]
fn bad_magic_rejected() {
    let files = vec![entry("a", 1)];
    let mut buf = encode_manifest(&files).unwrap();
    buf[0] = b'x';
    assert_eq!(decode_manifest(&buf).unwrap_err(), TransferError::BadMagic);
}

#[test]
fn truncated_record_rejected() {
    let files = vec![entry("abcdef", 5)];
    let good = encode_manifest(&files).unwrap();
    // keep the header consistent with the shorter buffer, but cut the record
    let cut = good.len() - 3;
    let mut buf = good[..cut].to_vec();
    buf[4..8].copy_from_slice(&(cut as u32).to_le_bytes());
    assert_eq!(decode_manifest(&buf).unwrap_err(), TransferError::MalformedManifest);
}

#[test]
fn record_overrunning_body_rejected() {
    // one record whose declared name length runs past the body
    let mut buf = Vec::new();
    buf.extend_from_slice(b"sf-");
    buf.push(3u8);
    buf.extend_from_slice(&21u32.to_le_bytes());
    buf.extend_from_slice(&1u64.to_le_bytes());
    buf.extend_from_slice(&200u32.to_le_bytes());
    buf.push(b'a');
    assert_eq!(buf.len(), 21);
    assert_eq!(decode_manifest(&buf).unwrap_err(), TransferError::MalformedManifest);
}

#[test]
fn invalid_utf8_path_rejected() {
    let mut buf = Vec::new();
    buf.extend_from_slice(b"sf-");
    buf.push(3u8);
    buf.extend_from_slice(&21u32.to_le_bytes());
    buf.extend_from_slice(&1u64.to_le_bytes());
    buf.extend_from_slice(&1u32.to_le_bytes());
    buf.push(0xff);
    assert_eq!(decode_manifest(&buf).unwrap_err(), TransferError::MalformedManifest);
}

#[test]
fn length_field_mismatch_rejected() {
    let files = vec![entry("a", 1)];
    let mut buf = encode_manifest(&files).unwrap();
    let wrong = (buf.len() + 1) as u32;
    buf[4..8].copy_from_slice(&wrong.to_le_bytes());
    assert_eq!(decode_manifest(&buf).unwrap_err(), TransferError::MalformedManifest);
}

#[test]
fn declared_length_below_header_rejected() {
    let mut header = Vec::new();
    header.extend_from_slice(b"sf-");
    header.push(3u8);
    header.extend_from_slice(&4u32.to_le_bytes());
    assert_eq!(parse_header(&header), Err(TransferError::MalformedManifest));
}

#[test]
fn header_reports_body_length() {
    let files = vec![entry("abc", 9)];
    let buf = encode_manifest(&files).unwrap();
    let body_len = parse_header(&buf[..8]).unwrap();
    assert_eq!(body_len as usize, buf.len() - 8);
}

#[test]
fn datagram_v4_layout_exact() {
    let addr = SocketAddress { ip: IpAddress::V4(vec![192, 168, 1, 7]), port: 8370 };
    let bytes = serialize_socket_addr(&addr);
    let mut expected = vec![4u8, 192, 168, 1, 7, 0x20, 0xb2];
    expected.resize(20, 0);
    assert_eq!(bytes, expected);
}

#[test]
fn datagram_round_trip_v4() {
    let addr = SocketAddress { ip: IpAddress::V4(vec![10, 0, 0, 1]), port: 65535 };
    let bytes = serialize_socket_addr(&addr);
    let back = deserialize_socket_addr(&bytes).unwrap();
    assert_eq!(back.port, 65535);
    match back.ip {
        IpAddress::V4(o) => assert_eq!(o, vec![10, 0, 0, 1]),
        IpAddress::V6(_) => panic!("wrong family"),
    }
}

#[test]
fn datagram_round_trip_v6() {
    let octets: Vec<u8> = (1..=16).collect();
    let addr = SocketAddress { ip: IpAddress::V6(octets.clone()), port: 1 };
    let bytes = serialize_socket_addr(&addr);
    assert_eq!(bytes.len(), 20);
    let back = deserialize_socket_addr(&bytes).unwrap();
    assert_eq!(back.port, 1);
    match back.ip {
        IpAddress::V6(o) => assert_eq!(o, octets),
        IpAddress::V4(_) => panic!("wrong family"),
    }
}

#[test]
fn datagram_bad_family_rejected() {
    let buf = [5u8; 20];
    assert_eq!(
        deserialize_socket_addr(&buf).unwrap_err(),
        TransferError::InvalidDiscoveryDatagram
    );
}

#[test]
fn broadcast_addr_v4() {
    let addr = SocketAddress { ip: IpAddress::V4(vec![192, 168, 1, 5]), port: 8370 };
    let mask = IpAddress::V4(vec![255, 255, 255, 0]);
    let bc = make_broadcast_addr(&addr, &mask);
    assert_eq!(bc.port, 8370);
    match bc.ip {
        IpAddress::V4(o) => assert_eq!(o, vec![192, 168, 1, 255]),
        IpAddress::V6(_) => panic!("wrong family"),
    }
}

#[test]
fn broadcast_addr_v6() {
    let mut octets = vec![0xfdu8; 16];
    octets[15] = 0x01;
    let addr = SocketAddress { ip: IpAddress::V6(octets), port: 9 };
    let mut mask = vec![0xffu8; 16];
    mask[15] = 0;
    let bc = make_broadcast_addr(&addr, &IpAddress::V6(mask));
    match bc.ip {
        IpAddress::V6(o) => {
            assert_eq!(&o[..15], &[0xfdu8; 15][..]);
            assert_eq!(o[15], 0xff);
        },
        IpAddress::V4(_) => panic!("wrong family"),
    }
}

#[test]
fn error_messages_distinct() {
    let msgs = [
        TransferError::BadMagic.message(),
        TransferError::BadVersion.message(),
        TransferError::MalformedManifest.message(),
        TransferError::TruncatedTransfer.message(),
        TransferError::InvalidDiscoveryDatagram.message(),
        TransferError::ManifestTooLarge.message(),
    ];
    for (i, m) in msgs.iter().enumerate() {
        assert!(!m.is_empty());
        for n in msgs.iter().skip(i + 1) {
            assert_ne!(m, n);
        }
    }
}
