//! End-to-end scenarios against the server state machine: joins, spawns
//! and their vetoes, chat rewriting, transform fan-out, and the
//! disconnect sweep.

use drivesrv::client::{ClientState, UdpPeer, UserData};
use drivesrv::config::{Config, GeneralSettings};
use drivesrv::packet::RawPacket;
use drivesrv::plugin::{PluginReply, PluginRequest, PluginResponse};
use drivesrv::server::{classify_connection, is_http_get, AcceptRole, Server, ServerError, SyncStep};

fn config(max_cars: Option<u8>) -> Config {
    Config {
        mods: Vec::new(),
        general: GeneralSettings {
            port: Some(48900),
            name: "test".to_string(),
            description: "d".to_string(),
            auth_key: None,
            max_cars,
            max_players: 8,
            private: true,
            map: "gridmap".to_string(),
            log_chat: true,
            debug: false,
            resource_folder: "Resources".to_string(),
        },
    }
}

fn user(name: &str) -> UserData {
    UserData {
        uid: format!("uid-{name}"),
        createdAt: "now".to_string(),
        guest: false,
        roles: "player".to_string(),
        username: name.to_string(),
    }
}

/// Run one client through authentication, sync and join approval.
/// Plugin replies for the join are delivered as the given values.
fn join(server: &mut Server, name: &str, replies: &[PluginReply]) -> usize {
    server.begin_session().unwrap();
    let index = server.clients.len() - 1;
    server.auth_greet(index);
    server.auth_complete(index, user(name));
    let step = server.handle_sync_frame(index, b"Done");
    assert!(matches!(step, SyncStep::Finished));
    let token = server.next_token;
    server.session_ready(index);
    for r in replies {
        server.deliver_reply(token, r.clone());
    }
    assert!(server.resolve_next_join());
    index
}

fn raw(data: &[u8]) -> RawPacket {
    RawPacket::from_bytes(data.to_vec())
}

#[test]
fn happy_path_join_with_no_plugins() {
    let mut server = Server::new(config(None), 0);
    assert_eq!(server.begin_session(), Ok(0));
    server.auth_greet(0);
    server.auth_complete(0, user("alice"));
    let ob = &server.clients[0].outbox;
    assert_eq!(ob[0], b"S");
    assert_eq!(ob[1], b"P0");
    let step = server.handle_sync_frame(0, b"SR");
    assert!(matches!(step, SyncStep::SentCatalog));
    assert_eq!(server.clients[0].outbox[2], b"-");
    let step = server.handle_sync_frame(0, b"Done");
    assert!(matches!(step, SyncStep::Finished));
    assert_eq!(server.clients[0].outbox[3], b"Mgridmap");
    server.session_ready(0);
    assert!(server.resolve_next_join());
    assert!(matches!(server.clients[0].state, ClientState::Active));
    // A full sync with no peers announces only the requester's own name.
    let before = server.clients[0].outbox.len();
    server.process_tcp(0, raw(b"H")).unwrap();
    assert_eq!(server.clients[0].outbox[before], b"Snalice");
    assert_eq!(server.clients[0].outbox.len(), before + 1);
}

#[test]
fn live_sessions_hold_distinct_ids() {
    let mut server = Server::new(config(None), 0);
    let a = join(&mut server, "alice", &[]);
    let b = join(&mut server, "bob", &[]);
    assert_ne!(server.clients[a].id, server.clients[b].id);
    assert_eq!(server.clients[a].id, 0);
    assert_eq!(server.clients[b].id, 1);
}

#[test]
fn the_id_space_saturates_cleanly() {
    let mut server = Server::new(config(None), 0);
    for _ in 0..=255u16 {
        server.begin_session().unwrap();
    }
    assert_eq!(server.begin_session(), Err(ServerError::IdSpaceSaturated));
}

#[test]
fn join_vetoed_by_a_plugin_kicks_the_session() {
    let mut server = Server::new(config(None), 1);
    server.begin_session().unwrap();
    server.auth_complete(0, user("alice"));
    server.handle_sync_frame(0, b"Done");
    let token = server.next_token;
    server.session_ready(0);
    server.deliver_reply(token, PluginReply::Integer(1));
    assert!(server.resolve_next_join());
    assert!(matches!(server.clients[0].state, ClientState::Disconnect));
    let last = server.clients[0].outbox.last().unwrap();
    assert_eq!(last, b"KYou are not allowed to join this server!");
}

#[test]
fn spawn_vetoed_by_a_plugin_corrects_only_the_originator() {
    let mut server = Server::new(config(None), 1);
    let a = join(&mut server, "alice", &[PluginReply::Integer(0)]);
    let b = join(&mut server, "bob", &[PluginReply::Integer(0)]);
    let frame = b"Os:player:alice:0-0:{\"model\":\"covet\"}";
    let token = server.next_token;
    server.process_tcp(a, raw(frame)).unwrap();
    assert_eq!(server.clients[a].cars.len(), 1);
    let before_a = server.clients[a].outbox.len();
    let before_b = server.clients[b].outbox.len();
    server.deliver_reply(token, PluginReply::Integer(1));
    assert!(server.resolve_next_spawn());
    let ob = &server.clients[a].outbox;
    assert_eq!(ob.len(), before_a + 2);
    assert_eq!(ob[before_a], frame.to_vec());
    assert_eq!(ob[before_a + 1], b"Od:0-0");
    assert_eq!(server.clients[b].outbox.len(), before_b);
    assert_eq!(server.clients[a].cars.len(), 0);
}

#[test]
fn an_approved_spawn_reaches_every_active_player() {
    let mut server = Server::new(config(None), 0);
    let a = join(&mut server, "alice", &[]);
    let b = join(&mut server, "bob", &[]);
    let frame = b"Os:player:alice:0-0:{\"model\":\"covet\"}";
    server.process_tcp(a, raw(frame)).unwrap();
    assert!(server.resolve_next_spawn());
    assert_eq!(server.clients[a].outbox.last().unwrap(), &frame.to_vec());
    assert_eq!(server.clients[b].outbox.last().unwrap(), &frame.to_vec());
    assert_eq!(server.clients[a].cars.len(), 1);
}

#[test]
fn a_spawn_past_max_cars_is_echoed_and_deleted_at_once() {
    let mut server = Server::new(config(Some(1)), 0);
    let a = join(&mut server, "alice", &[]);
    let b = join(&mut server, "bob", &[]);
    server.process_tcp(a, raw(b"Os:player:alice:0-0:{\"m\":1}")).unwrap();
    assert!(server.resolve_next_spawn());
    assert_eq!(server.clients[a].cars.len(), 1);
    let before_a = server.clients[a].outbox.len();
    let before_b = server.clients[b].outbox.len();
    server.process_tcp(a, raw(b"Os:player:alice:0-1:{\"m\":2}")).unwrap();
    let ob = &server.clients[a].outbox;
    assert_eq!(ob.len(), before_a + 2);
    assert_eq!(ob[before_a], b"Os:player:alice:0-1:{\"m\":2}");
    assert_eq!(ob[before_a + 1], b"Od:0-1");
    assert_eq!(server.clients[b].outbox.len(), before_b);
    assert_eq!(server.clients[a].cars.len(), 1);
    assert!(!server.resolve_next_spawn());
}

#[test]
fn chat_is_rewritten_by_the_last_text_reply() {
    let mut server = Server::new(config(None), 1);
    let a = join(&mut server, "alice", &[PluginReply::Integer(0)]);
    let b = join(&mut server, "bob", &[PluginReply::Integer(0)]);
    let token = server.next_token;
    server.process_tcp(a, raw(b"C:alice:hi")).unwrap();
    server.deliver_reply(token, PluginReply::Text("[modded] hi".to_string()));
    assert!(server.resolve_next_chat());
    assert_eq!(server.clients[a].outbox.last().unwrap(), b"C:alice:[modded] hi");
    assert_eq!(server.clients[b].outbox.last().unwrap(), b"C:alice:[modded] hi");
}

#[test]
fn a_vetoed_chat_line_is_dropped_silently() {
    let mut server = Server::new(config(None), 1);
    let a = join(&mut server, "alice", &[PluginReply::Integer(0)]);
    let token = server.next_token;
    server.process_tcp(a, raw(b"C:alice:hi")).unwrap();
    let before = server.clients[a].outbox.len();
    server.deliver_reply(token, PluginReply::Boolean(true));
    assert!(server.resolve_next_chat());
    assert_eq!(server.clients[a].outbox.len(), before);
}

#[test]
fn chat_under_a_borrowed_name_is_refused() {
    let mut server = Server::new(config(None), 0);
    let a = join(&mut server, "alice", &[]);
    server.process_tcp(a, raw(b"C:bob:hi")).unwrap();
    assert_eq!(server.chat_queue.len(), 0);
}

#[test]
fn transform_fan_out_updates_the_car_and_mirrors_the_bytes() {
    let mut server = Server::new(config(None), 0);
    let a = join(&mut server, "alice", &[]);
    let b = join(&mut server, "bob", &[]);
    server.process_tcp(a, raw(b"Os:player:alice:0-0:{}")).unwrap();
    assert!(server.resolve_next_spawn());
    let addr_a = UdpPeer { ip: 1, port: 1000 };
    let addr_b = UdpPeer { ip: 2, port: 2000 };
    // Each player pings once so its address is on file.
    server.process_udp(addr_a, raw(b"\x01\x00p")).unwrap();
    server.process_udp(addr_b, raw(b"\x02\x00p")).unwrap();
    assert_eq!(server.clients[a].udp_addr, Some(addr_a));
    assert_eq!(server.clients[b].udp_addr, Some(addr_b));
    server.udp_out.clear();
    // Datagram: sender id plus one, a reserved byte, then the payload
    // whose offsets three and five carry the target pid and vid digits.
    let mut datagram = vec![1u8, 0u8];
    datagram.extend_from_slice(b"Z  0 0 ");
    let body =
        b"{\"pos\":[1.0,2.0,3.0],\"rot\":[0,0,0,1],\"vel\":[0,0,0],\"rvel\":[0,0,0],\"tim\":0,\"ping\":0}";
    datagram.extend_from_slice(body);
    server.process_udp(addr_a, raw(&datagram)).unwrap();
    assert_eq!(server.clients[a].cars[0].1.last_transform.as_deref(), Some(&body[..]));
    assert_eq!(server.udp_out.len(), 1);
    assert_eq!(server.udp_out[0].0, addr_b);
    assert_eq!(server.udp_out[0].1, datagram[2..].to_vec());
}

#[test]
fn a_short_position_packet_is_refused_without_effect() {
    let mut server = Server::new(config(None), 0);
    let a = join(&mut server, "alice", &[]);
    server.process_tcp(a, raw(b"Os:player:alice:0-0:{}")).unwrap();
    assert!(server.resolve_next_spawn());
    let addr = UdpPeer { ip: 1, port: 1 };
    let r = server.process_udp(addr, raw(b"\x01\x00Z00"));
    assert_eq!(r, Err(ServerError::BrokenPacket));
    assert!(server.clients[a].cars[0].1.last_transform.is_none());
    assert_eq!(server.udp_out.len(), 0);
}

#[test]
fn a_position_packet_with_bad_digits_is_refused() {
    let mut server = Server::new(config(None), 0);
    join(&mut server, "alice", &[]);
    let addr = UdpPeer { ip: 1, port: 1 };
    let r = server.process_udp(addr, raw(b"\x01\x00Z..:.:.{}"));
    assert_eq!(r, Err(ServerError::BrokenPacket));
}

#[test]
fn pong_answers_on_the_source_address() {
    let mut server = Server::new(config(None), 0);
    join(&mut server, "alice", &[]);
    let addr = UdpPeer { ip: 9, port: 9 };
    server.process_udp(addr, raw(b"\x01\x00p")).unwrap();
    assert_eq!(server.udp_out.len(), 1);
    assert_eq!(server.udp_out[0].0, addr);
    assert_eq!(server.udp_out[0].1, b"p");
}

#[test]
fn datagrams_from_unknown_players_are_dropped() {
    let mut server = Server::new(config(None), 0);
    join(&mut server, "alice", &[]);
    let addr = UdpPeer { ip: 9, port: 9 };
    // Player id seven is not on; nothing happens.
    server.process_udp(addr, raw(b"\x08\x00p")).unwrap();
    assert_eq!(server.udp_out.len(), 0);
}

#[test]
fn the_disconnect_sweep_deletes_cars_in_order_then_says_goodbye() {
    let mut server = Server::new(config(None), 0);
    let a = join(&mut server, "alice", &[]);
    let b = join(&mut server, "bob", &[]);
    server.process_tcp(b, raw(b"Os:player:bob:1-0:{}")).unwrap();
    assert!(server.resolve_next_spawn());
    server.process_tcp(b, raw(b"Os:player:bob:1-1:{}")).unwrap();
    assert!(server.resolve_next_spawn());
    server.kick_client(b, "bye");
    let before = server.clients[a].outbox.len();
    assert!(server.sweep_disconnected());
    assert_eq!(server.clients.len(), 1);
    let ob = &server.clients[a].outbox;
    assert_eq!(ob[before], b"Od:1-0");
    assert_eq!(ob[before + 1], b"Od:1-1");
    assert_eq!(ob[before + 2], b"Jbob left!");
    assert!(!server.sweep_disconnected());
    // The freed id is reusable at once.
    assert_eq!(server.begin_session(), Ok(1));
}

#[test]
fn an_empty_sync_payload_ends_sync_exactly_as_done_does() {
    let mut with_done = Server::new(config(None), 0);
    with_done.begin_session().unwrap();
    with_done.auth_complete(0, user("alice"));
    let step_done = with_done.handle_sync_frame(0, b"Done");

    let mut with_empty = Server::new(config(None), 0);
    with_empty.begin_session().unwrap();
    with_empty.auth_complete(0, user("alice"));
    let step_empty = with_empty.handle_sync_frame(0, b"");

    assert!(matches!(step_done, SyncStep::Finished));
    assert!(matches!(step_empty, SyncStep::Finished));
    assert_eq!(with_done.clients[0].outbox, with_empty.clients[0].outbox);
    assert_eq!(with_done.clients[0].state, with_empty.clients[0].state);
}

#[test]
fn a_traversing_file_request_is_kicked() {
    let mut server = Server::new(config(None), 0);
    server.begin_session().unwrap();
    server.auth_complete(0, user("alice"));
    let step = server.handle_sync_frame(0, b"f../secret.zip");
    assert!(matches!(step, SyncStep::Rejected));
    assert!(matches!(server.clients[0].state, ClientState::Disconnect));
    assert_eq!(server.clients[0].outbox.last().unwrap(), b"KInvalid mod request");
}

#[test]
fn a_good_file_request_resolves_under_the_client_tree() {
    let mut server = Server::new(config(None), 0);
    server.begin_session().unwrap();
    server.auth_complete(0, user("alice"));
    match server.handle_sync_frame(0, b"fpack.zip") {
        SyncStep::SendFile { path, mod_id } => {
            assert_eq!(path, "Resources/Client/pack.zip");
            assert_eq!(mod_id, 0);
        },
        _ => panic!("expected a file grant"),
    }
    server.file_request_ok(0, 0);
    assert_eq!(server.clients[0].outbox.last().unwrap(), b"AG");
}

#[test]
fn the_player_list_names_active_sessions_in_order() {
    let mut server = Server::new(config(None), 0);
    let a = join(&mut server, "alice", &[]);
    let _b = join(&mut server, "bob", &[]);
    server.broadcast_player_list();
    assert_eq!(server.clients[a].outbox.last().unwrap(), b"Ss2/8:alice,bob");
}

#[test]
fn plugin_requests_are_answered_from_live_state() {
    let mut server = Server::new(config(None), 0);
    let a = join(&mut server, "alice", &[]);
    server.process_tcp(a, raw(b"Os:player:alice:0-0:{\"m\":1}")).unwrap();
    assert!(server.resolve_next_spawn());
    match server.answer_plugin_request(0, PluginRequest::RequestPlayerCount) {
        PluginResponse::PlayerCount(n) => assert_eq!(n, 1),
        _ => panic!("expected a count"),
    }
    match server.answer_plugin_request(0, PluginRequest::RequestPlayers) {
        PluginResponse::Players(list) => {
            assert_eq!(list.len(), 1);
            assert_eq!(list[0].0, 0);
            assert_eq!(list[0].1, "alice");
        },
        _ => panic!("expected players"),
    }
    match server.answer_plugin_request(0, PluginRequest::RequestPlayerVehicles(0)) {
        PluginResponse::PlayerVehicles(list) => {
            assert_eq!(list.len(), 1);
            assert_eq!(list[0].1, "{\"m\":1}");
        },
        _ => panic!("expected vehicles"),
    }
    match server.answer_plugin_request(0, PluginRequest::RequestPlayerIdentifiers(9)) {
        PluginResponse::Nothing => {},
        _ => panic!("an unknown player answers nothing"),
    }
    server.answer_plugin_request(0, PluginRequest::SendChatMessage(0, "welcome".to_string()));
    assert_eq!(server.clients[a].outbox.last().unwrap(), b"C:Server @ 0: welcome");
}

#[test]
fn vehicle_deletion_reaches_every_session_and_frees_the_id() {
    let mut server = Server::new(config(None), 0);
    let a = join(&mut server, "alice", &[]);
    let b = join(&mut server, "bob", &[]);
    server.process_tcp(a, raw(b"Os:player:alice:0-0:{}")).unwrap();
    assert!(server.resolve_next_spawn());
    server.process_tcp(b, raw(b"Od:0-0")).unwrap();
    assert_eq!(server.clients[a].cars.len(), 0);
    assert_eq!(server.clients[a].outbox.last().unwrap(), b"Od:0-0");
    assert_eq!(server.clients[b].outbox.last().unwrap(), b"Od:0-0");
}

#[test]
fn oversized_keys_are_refused_before_the_identity_call() {
    assert!(Server::auth_key_ok(&[b'a'; 50]));
    assert!(!Server::auth_key_ok(&[b'a'; 51]));
}

#[test]
fn the_acceptor_codes_select_their_paths() {
    assert_eq!(classify_connection(b'C'), AcceptRole::GameClient);
    assert_eq!(classify_connection(b'D'), AcceptRole::Downloader);
    assert_eq!(classify_connection(b'G'), AcceptRole::HttpCandidate);
    assert_eq!(classify_connection(b'Q'), AcceptRole::Unknown);
    assert!(is_http_get(b"ET "));
    assert!(!is_http_get(b"OT "));
    assert!(!is_http_get(b"ET"));
}

#[test]
fn closing_kicks_everyone_and_tells_the_plugins() {
    let mut server = Server::new(config(None), 1);
    let a = join(&mut server, "alice", &[PluginReply::Integer(0)]);
    server.close();
    assert!(matches!(server.clients[a].state, ClientState::Disconnect));
    assert_eq!(server.clients[a].outbox.last().unwrap(), b"KServer is closing!");
    assert!(matches!(
        server.plugin_out.last().unwrap().event,
        drivesrv::plugin::ScriptEvent::OnShutdown
    ));
}

#[test]
fn an_approved_edit_rewrites_the_descriptor_for_peers() {
    let mut server = Server::new(config(None), 1);
    let a = join(&mut server, "alice", &[PluginReply::Integer(0)]);
    let b = join(&mut server, "bob", &[PluginReply::Integer(0)]);
    let spawn_token = server.next_token;
    server.process_tcp(a, raw(b"Os:player:alice:0-0:{\"m\":1}")).unwrap();
    server.deliver_reply(spawn_token, PluginReply::Integer(0));
    assert!(server.resolve_next_spawn());
    // Edit frame: pid and vid as digits at offsets three and five, the
    // new descriptor from offset seven.
    let edit = b"Oc 0 0 {\"m\":2}";
    let edit_token = server.next_token;
    server.process_tcp(a, raw(edit)).unwrap();
    let before_a = server.clients[a].outbox.len();
    server.deliver_reply(edit_token, PluginReply::Integer(0));
    assert!(server.resolve_next_edit());
    assert_eq!(server.clients[a].cars[0].1.car_json, b"{\"m\":2}");
    assert_eq!(server.clients[a].outbox.len(), before_a);
    assert_eq!(server.clients[b].outbox.last().unwrap(), &edit.to_vec());
}

#[test]
fn a_vetoed_edit_removes_the_car_with_a_correction() {
    let mut server = Server::new(config(None), 1);
    let a = join(&mut server, "alice", &[PluginReply::Integer(0)]);
    let spawn_token = server.next_token;
    server.process_tcp(a, raw(b"Os:player:alice:0-0:{\"m\":1}")).unwrap();
    server.deliver_reply(spawn_token, PluginReply::Integer(0));
    assert!(server.resolve_next_spawn());
    let edit_token = server.next_token;
    server.process_tcp(a, raw(b"Oc 0 0 {\"m\":2}")).unwrap();
    server.deliver_reply(edit_token, PluginReply::Boolean(true));
    assert!(server.resolve_next_edit());
    assert_eq!(server.clients[a].cars.len(), 0);
    assert_eq!(server.clients[a].outbox.last().unwrap(), b"Od:0-0");
}

#[test]
fn an_enveloped_datagram_is_rebroadcast_byte_identical() {
    let mut server = Server::new(config(None), 0);
    join(&mut server, "alice", &[]);
    join(&mut server, "bob", &[]);
    let addr_a = UdpPeer { ip: 1, port: 1000 };
    let addr_b = UdpPeer { ip: 2, port: 2000 };
    server.process_udp(addr_a, raw(b"\x01\x00p")).unwrap();
    server.process_udp(addr_b, raw(b"\x02\x00p")).unwrap();
    server.udp_out.clear();
    // A relay-code payload large enough that its sender enveloped it.
    let payload = vec![86u8; 500];
    let enveloped = drivesrv::codec::compress_envelope(&payload).unwrap();
    let mut datagram = vec![1u8, 0u8];
    datagram.extend_from_slice(&enveloped);
    server.process_udp(addr_a, raw(&datagram)).unwrap();
    assert_eq!(server.udp_out.len(), 1);
    assert_eq!(server.udp_out[0].0, addr_b);
    // Peers get the received bytes untouched, envelope included.
    assert_eq!(server.udp_out[0].1, enveloped);
}

#[test]
fn the_tick_resolves_everything_and_sends_the_list() {
    let mut server = Server::new(config(None), 0);
    let a = join(&mut server, "alice", &[]);
    let b = join(&mut server, "bob", &[]);
    server.process_tcp(a, raw(b"Os:player:alice:0-0:{}")).unwrap();
    server.kick_client(b, "bye");
    server.process(true);
    assert_eq!(server.veh_spawn_queue.len(), 0);
    assert_eq!(server.join_queue.len(), 0);
    assert_eq!(server.clients.len(), 1);
    assert_eq!(server.clients[a].cars.len(), 1);
    assert_eq!(server.clients[a].outbox.last().unwrap(), b"Ss1/8:alice");
}
