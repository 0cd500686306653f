//! Text-frame parsing and building: decimal ids, the vehicle frames and
//! their round trips, and the small single-code frames.

use drivesrv::packet::{NotificationPacket, Packet, RawPacket};
use drivesrv::text::{build_catalog, build_chat, build_map, build_pid, build_player_list, build_sn};
use drivesrv::vehicle::{build_od, build_os, parse_od, parse_os};
use drivesrv::wire::{parse_u8_dec, u8_to_dec, usize_to_dec};

#[test]
fn decimal_rendering() {
    assert_eq!(u8_to_dec(0), b"0");
    assert_eq!(u8_to_dec(7), b"7");
    assert_eq!(u8_to_dec(42), b"42");
    assert_eq!(u8_to_dec(255), b"255");
    assert_eq!(usize_to_dec(1000), b"1000");
}

#[test]
fn decimal_parsing_accepts_canonical_only() {
    assert_eq!(parse_u8_dec(b"0"), Some(0));
    assert_eq!(parse_u8_dec(b"255"), Some(255));
    assert_eq!(parse_u8_dec(b"256"), None);
    assert_eq!(parse_u8_dec(b"01"), None);
    assert_eq!(parse_u8_dec(b""), None);
    assert_eq!(parse_u8_dec(b"2x"), None);
    assert_eq!(parse_u8_dec(b"1000"), None);
}

#[test]
fn os_frame_parses_and_rebuilds_byte_for_byte() {
    let data = b"Os:player:alice:3-12:{\"model\":\"covet\",\"parts\":\"a:b:c\"}".to_vec();
    let f = parse_os(&data).unwrap();
    assert_eq!(f.role, b"player");
    assert_eq!(f.name, b"alice");
    assert_eq!(f.pid, 3);
    assert_eq!(f.vid, 12);
    assert_eq!(f.descriptor, b"{\"model\":\"covet\",\"parts\":\"a:b:c\"}");
    let rebuilt = build_os(&f.role, &f.name, f.pid, f.vid, &f.descriptor);
    assert_eq!(rebuilt, data);
}

#[test]
fn os_frame_build_then_parse_returns_the_fields() {
    let built = build_os(b"admin", b"bob", 0, 0, b"{}");
    assert_eq!(built, b"Os:admin:bob:0-0:{}");
    let f = parse_os(&built).unwrap();
    assert_eq!((f.pid, f.vid), (0, 0));
    assert_eq!(f.name, b"bob");
}

#[test]
fn malformed_os_frames_are_refused() {
    assert!(parse_os(b"Os:no-colons").is_none());
    assert!(parse_os(b"Os:a:b:xy:d").is_none());
    assert!(parse_os(b"Os:a:b:1-300:d").is_none());
    assert!(parse_os(b"Od:1-2").is_none());
    assert!(parse_os(b"").is_none());
}

#[test]
fn od_frame_round_trip() {
    let built = build_od(2, 1);
    assert_eq!(built, b"Od:2-1");
    assert_eq!(parse_od(&built), Some((2, 1)));
    assert_eq!(parse_od(b"Od:256-0"), None);
    assert_eq!(parse_od(b"Od:1"), None);
}

#[test]
fn single_code_frames() {
    assert_eq!(build_pid(0), b"P0");
    assert_eq!(build_pid(17), b"P17");
    assert_eq!(build_sn(b"alice"), b"Snalice");
    assert_eq!(build_map(b"gridmap"), b"Mgridmap");
    assert_eq!(build_chat(b"alice", b"hi"), b"C:alice:hi");
}

#[test]
fn player_list_frame() {
    let names = vec![b"alice".to_vec(), b"bob".to_vec()];
    let frame = build_player_list(2, 8, &names);
    assert_eq!(frame, b"Ss2/8:alice,bob");
    let one = build_player_list(1, 8, &vec![b"alice".to_vec()]);
    assert_eq!(one, b"Ss1/8:alice");
    let none = build_player_list(0, 8, &Vec::new());
    assert_eq!(none, b"Ss0/8:");
}

#[test]
fn catalog_lists_paths_then_sizes() {
    let mods = vec![("m.zip".to_string(), 5usize), ("/n.zip".to_string(), 70usize)];
    let body = build_catalog(&mods);
    assert_eq!(body, b"/m.zip;/n.zip;5;70;");
    assert_eq!(build_catalog(&Vec::new()), b"");
}

#[test]
fn packets_expose_their_code_and_text() {
    let raw = RawPacket::from_str("Haligned");
    assert_eq!(raw.header, 8);
    assert_eq!(raw.data, b"Haligned");
    assert_eq!(raw.data_as_string(), "Haligned");
    let mut p = Packet::Raw(RawPacket::from_code('S'));
    assert_eq!(p.get_code(), Some('S'));
    assert_eq!(p.get_header(), 1);
    assert_eq!(p.get_data(), b"S");
    p.set_data(b"Sn".to_vec());
    p.set_header(2);
    assert_eq!(p.get_data(), b"Sn");
    assert_eq!(p.get_header(), 2);
    let n = NotificationPacket::new("hello");
    let np = Packet::Notification(n);
    assert_eq!(np.get_code(), Some('J'));
    assert_eq!(np.get_data(), b"Jhello");
}

#[test]
fn invalid_text_bytes_are_replaced_not_echoed() {
    let raw = RawPacket::from_bytes(vec![0xff, b'a']);
    assert_eq!(raw.data_as_string(), "\u{FFFD}a");
}
