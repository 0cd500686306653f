//! The id pool, the per-session car list, and the path rules.

use drivesrv::car::Car;
use drivesrv::client::{Client, ClientState};
use drivesrv::config::{join_path_secure, Config, GeneralSettings};
use drivesrv::ids::IdPool;

fn settings(folder: &str) -> GeneralSettings {
    GeneralSettings {
        port: Some(48900),
        name: "test".to_string(),
        description: "d".to_string(),
        auth_key: None,
        max_cars: None,
        max_players: 8,
        private: true,
        map: "gridmap".to_string(),
        log_chat: true,
        debug: false,
        resource_folder: folder.to_string(),
    }
}

#[test]
fn ids_are_claimed_smallest_first_and_reused() {
    let mut pool = IdPool::new();
    assert_eq!(pool.claim(), Ok(0));
    assert_eq!(pool.claim(), Ok(1));
    assert_eq!(pool.claim(), Ok(2));
    pool.release(1);
    assert_eq!(pool.claim(), Ok(1));
    assert_eq!(pool.claim(), Ok(3));
}

#[test]
fn a_saturated_pool_fails_cleanly() {
    let mut pool = IdPool::new();
    for expected in 0..=255u16 {
        assert_eq!(pool.claim(), Ok(expected as u8));
    }
    assert_eq!(pool.claim(), Err(()));
    pool.release(17);
    assert_eq!(pool.claim(), Ok(17));
}

#[test]
fn car_ids_are_smallest_unused_per_player() {
    let mut c = Client::new(0);
    assert_eq!(c.register_car(Car::new(b"{}".to_vec())), 0);
    assert_eq!(c.register_car(Car::new(b"{}".to_vec())), 1);
    assert_eq!(c.register_car(Car::new(b"{}".to_vec())), 2);
    c.unregister_car(1);
    assert_eq!(c.register_car(Car::new(b"{}".to_vec())), 1);
    assert_eq!(c.register_car(Car::new(b"{}".to_vec())), 3);
    let mut vids: Vec<u8> = c.cars.iter().map(|(v, _)| *v).collect();
    vids.sort();
    assert_eq!(vids, vec![0, 1, 2, 3]);
}

#[test]
fn unregistering_a_missing_car_changes_nothing() {
    let mut c = Client::new(0);
    c.register_car(Car::new(b"{}".to_vec()));
    c.unregister_car(9);
    assert_eq!(c.cars.len(), 1);
}

#[test]
fn kick_queues_the_reason_and_ends_the_session() {
    let mut c = Client::new(4);
    c.kick("bye");
    assert!(matches!(c.state, ClientState::Disconnect));
    assert_eq!(c.outbox.len(), 1);
    assert_eq!(c.outbox[0], b"Kbye");
}

#[test]
fn client_events_are_framed_as_text() {
    let mut c = Client::new(0);
    c.trigger_client_event("raceStart", "3");
    assert_eq!(c.outbox[0], b"E:raceStart:3");
}

#[test]
fn resource_folders_hang_under_the_configured_root() {
    let s = settings("Resources");
    assert_eq!(s.get_client_resource_folder(), "Resources/Client");
    assert_eq!(s.get_server_resource_folder(), "Resources/Server");
    let slashed = settings("Resources/");
    assert_eq!(slashed.get_client_resource_folder(), "Resources/Client");
    let empty = settings("");
    assert_eq!(empty.get_client_resource_folder(), "Client");
}

#[test]
fn secure_join_keeps_paths_inside_the_parent() {
    assert_eq!(join_path_secure("root", "a/b.zip"), Some("root/a/b.zip".to_string()));
    assert_eq!(join_path_secure("root", "a/../b.zip"), Some("root/b.zip".to_string()));
    assert_eq!(join_path_secure("root", "./a//b"), Some("root/a/b".to_string()));
    assert_eq!(join_path_secure("root", "../secret"), None);
    assert_eq!(join_path_secure("root", "a/../../secret"), None);
}

#[test]
fn auth_keys_must_have_uuid_shape() {
    let mut s = settings("Resources");
    assert!(!s.is_auth_key_valid());
    s.auth_key = Some("not-a-key".to_string());
    assert!(!s.is_auth_key_valid());
    s.auth_key = Some("67e55044-10b1-426f-9247-bb680e5fe0c8".to_string());
    assert!(s.is_auth_key_valid());
}

#[test]
fn config_holds_the_boot_catalog() {
    let cfg = Config { mods: vec![("/m.zip".to_string(), 9)], general: settings("r") };
    assert_eq!(cfg.mods.len(), 1);
    assert_eq!(cfg.general.max_players, 8);
}
