use atomic_controller::driver::Drivers;
use atomic_controller::health::Health;
use atomic_controller::ids::IdAllocator;
use atomic_controller::resource::{CreateResourceError, DeleteResourceError, UpdateResourceError};
use atomic_controller::server::{FallbackPolicy, Fallback, Retention};
use atomic_controller::status::{Code, Status};
use atomic_controller::storage::Storage;
use atomic_controller::text::push_decimal;
use atomic_controller::transfer::ResolveError;
use atomic_controller::uuids::push_simple;

fn strings(v: &[&str]) -> Vec<String> {
    v.iter().map(|s| s.to_string()).collect()
}

#[test]
fn ids_start_at_one_and_count_up() {
    let mut ids = IdAllocator::new();
    assert_eq!(ids.get_id(), 1);
    assert_eq!(ids.get_id(), 2);
    assert_eq!(ids.get_id(), 3);
}

#[test]
fn released_id_comes_back_before_a_fresh_one() {
    let mut ids = IdAllocator::new();
    for _ in 0..4 {
        ids.get_id();
    }
    ids.release_id(2);
    assert_eq!(ids.get_id(), 2);
    assert_eq!(ids.get_id(), 5);
}

#[test]
fn smallest_released_id_first() {
    let mut ids = IdAllocator::new();
    for _ in 0..5 {
        ids.get_id();
    }
    ids.release_id(4);
    ids.release_id(2);
    ids.release_id(3);
    assert_eq!(ids.get_id(), 2);
    assert_eq!(ids.get_id(), 3);
    assert_eq!(ids.get_id(), 4);
    assert_eq!(ids.get_id(), 6);
}

#[test]
fn releasing_an_unused_id_is_ignored() {
    let mut ids = IdAllocator::new();
    ids.get_id();
    ids.release_id(7);
    ids.release_id(1);
    ids.release_id(1);
    assert_eq!(ids.get_id(), 1);
    assert_eq!(ids.get_id(), 2);
}

#[test]
fn new_health_has_startup_time() {
    let h = Health::new(1000, 500, 200);
    assert_eq!(h.next_checkin, 1500);
    assert!(!h.is_dead(1500));
    assert!(h.is_dead(1501));
}

#[test]
fn check_in_keeps_alive_for_timeout() {
    let mut h = Health::new(0, 10, 200);
    h.reset(1400);
    assert_eq!(h.next_checkin, 1600);
    assert!(!h.is_dead(1600));
    assert!(h.is_dead(1601));
}

#[test]
fn storage_paths() {
    assert_eq!(Storage::latest_log_file(), strings(&["logs", "latest.log"]));
    assert_eq!(Storage::nodes_directory(), strings(&["nodes"]));
    assert_eq!(Storage::node_file("alpha"), strings(&["nodes", "alpha.toml"]));
    assert_eq!(Storage::groups_directory(), strings(&["groups"]));
    assert_eq!(Storage::group_file("lobby"), strings(&["groups", "lobby.toml"]));
    assert_eq!(Storage::users_directory(), strings(&["users"]));
    assert_eq!(Storage::user_file("admin"), strings(&["users", "admin.toml"]));
    assert_eq!(Storage::configs_directory(), strings(&["configs"]));
    assert_eq!(Storage::primary_config_file(), strings(&["configs", "config.toml"]));
    assert_eq!(Storage::wasm_plugins_config_file(), strings(&["configs", "wasm-plugins.toml"]));
    assert_eq!(Storage::wasm_engine_config_file(), strings(&["configs", "wasm-engine.toml"]));
    assert_eq!(Storage::plugins_directory(), strings(&["plugins"]));
    assert_eq!(Storage::data_directory_for_plugin("pelican"), strings(&["data", "pelican"]));
    assert_eq!(Storage::config_directory_for_plugin("pelican"), strings(&["configs", "pelican"]));
}

#[test]
fn decimal_text() {
    let mut s = String::from("lobby-");
    push_decimal(&mut s, 120);
    assert_eq!(s, "lobby-120");
    let mut z = String::new();
    push_decimal(&mut z, 0);
    assert_eq!(z, "0");
}

#[test]
fn simple_uuid_text() {
    let mut s = String::new();
    push_simple(&mut s, 0x550e8400e29b41d4a716446655440000);
    assert_eq!(s, "550e8400e29b41d4a716446655440000");
    let mut t = String::new();
    push_simple(&mut t, 1);
    assert_eq!(t, "00000000000000000000000000000001");
}

fn check(s: Status, code: Code, message: &str) {
    assert_eq!(s.code, code);
    assert_eq!(s.message, message);
}

#[test]
fn resource_errors_map_to_statuses() {
    check(DeleteResourceError::StillActive.to_status(), Code::Unavailable, "Resource is still set to active");
    check(DeleteResourceError::StillInUse.to_status(), Code::Unavailable, "Resource is still in use");
    check(DeleteResourceError::NotFound.to_status(), Code::NotFound, "Resource not found");
    check(DeleteResourceError::Error("disk full".to_string()).to_status(), Code::Internal, "Error: disk full");
    check(CreateResourceError::RequiredNodeNotLoaded.to_status(), Code::FailedPrecondition, "Required node is not loaded");
    check(CreateResourceError::RequiredPluginNotLoaded.to_status(), Code::FailedPrecondition, "Required plugin is not loaded");
    check(CreateResourceError::AlreadyExists.to_status(), Code::AlreadyExists, "Resource already exists");
    check(CreateResourceError::Error("x".to_string()).to_status(), Code::Internal, "Error: x");
    check(UpdateResourceError::RequiredNodeNotLoaded.to_status(), Code::FailedPrecondition, "Required node is not loaded");
    check(UpdateResourceError::RequiredPluginNotLoaded.to_status(), Code::FailedPrecondition, "Required plugin is not loaded");
    check(UpdateResourceError::NotFound.to_status(), Code::NotFound, "Resource not found");
    check(UpdateResourceError::Error("y".to_string()).to_status(), Code::Internal, "Error: y");
}

#[test]
fn resolve_errors_map_to_statuses() {
    check(ResolveError::UserNotFound.to_status(), Code::NotFound, "User not found");
    check(ResolveError::ServerNotFound.to_status(), Code::NotFound, "Server not found");
    check(ResolveError::NotServerAvailable.to_status(), Code::Unavailable, "Server not available");
    check(ResolveError::GroupNotFound.to_status(), Code::NotFound, "Group not found");
    check(ResolveError::AccessDenied.to_status(), Code::PermissionDenied, "Missing permissions to transfer user");
}

#[test]
fn fallback_policy_report() {
    assert_eq!(FallbackPolicy { enabled: true, priority: 7 }.to_grpc(), Some(Fallback { priority: 7 }));
    assert_eq!(FallbackPolicy { enabled: false, priority: 7 }.to_grpc(), None);
    assert_eq!(Retention::default_retention(), Retention::Temporary);
}

#[test]
fn drivers_found_by_name_without_case() {
    let d = Drivers::new(strings(&["Pelican", "lua", "PELICAN"]));
    assert_eq!(d.len(), 3);
    assert_eq!(d.find_by_name("pelican"), Some(0));
    assert_eq!(d.find_by_name("LUA"), Some(1));
    assert_eq!(d.find_by_name("wasm"), None);
}
