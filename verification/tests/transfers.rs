use atomic_controller::auth::Auth;
use atomic_controller::controller::{Controller, Timeouts};
use atomic_controller::event::EventKey;
use atomic_controller::group::{Groups, ScalingPolicy};
use atomic_controller::request::TransferUsersTask;
use atomic_controller::server::{
    Address, Allocation, Deployment, FallbackPolicy, Resources, Retention, StartRequest,
};
use atomic_controller::service::ServerServiceImpl;
use atomic_controller::status::Code;
use atomic_controller::transfer::{Authorization, TransferTarget};
use atomic_controller::unit_service::{UnitServiceImpl, UnitTargetType, UnitTransferTarget};
use atomic_controller::user::{CurrentServer, NameAndUuid};
use atomic_controller::uuids::push_hyphenated;

const A: u128 = 0x11111111_2222_4333_8444_555555555555;
const B: u128 = 0x66666666_7777_4888_9999_aaaaaaaaaaaa;
const C: u128 = 0x0c0c0c0c_0d0d_4e0e_8f0f_101010101010;
const STEVE: u128 = 0x550e8400_e29b_41d4_a716_446655440000;
const ALEX: u128 = 0x123e4567_e89b_42d3_a456_426614174000;

fn text(u: u128) -> String {
    uuid::Uuid::from_u128(u).to_string()
}

fn deployment(fallback: Option<i32>) -> Deployment {
    Deployment {
        settings: vec![],
        environment: vec![],
        disk_retention: Retention::Temporary,
        image: "img".to_string(),
        max_players: 20,
        fallback: match fallback {
            Some(p) => FallbackPolicy { enabled: true, priority: p },
            None => FallbackPolicy { enabled: false, priority: 0 },
        },
    }
}

fn controller() -> Controller {
    let t = Timeouts { startup: 100, restart: 50, heartbeat: 30, transfer: 20, empty_server: 1000 };
    Controller::new(t, Groups::new(), Auth::empty())
}

fn start(c: &mut Controller, name: &str, uuid: u128, addresses: Vec<Address>, fallback: Option<i32>) {
    let request = StartRequest {
        id: 0,
        when: None,
        name: name.to_string(),
        group: None,
        nodes: vec!["node".to_string()],
        resources: Resources::default(),
        deployment: deployment(fallback),
        priority: 0,
        canceled: false,
    };
    let allocation = Allocation { addresses, resources: Resources::default(), deployment: deployment(fallback) };
    c.start_server(request, uuid, "node".to_string(), allocation, 0);
}

fn address(port: u16) -> Vec<Address> {
    vec![Address { host: "10.0.0.2".to_string(), port }]
}

fn connect(c: &mut Controller, server: u128, name: &str, user: u128) {
    ServerServiceImpl.connect_user(c, server, NameAndUuid::new(name.to_string(), user)).unwrap();
}

#[test]
fn hyphenated_uuid_text() {
    let mut s = String::from("User ");
    push_hyphenated(&mut s, STEVE);
    assert_eq!(s, "User 550e8400-e29b-41d4-a716-446655440000");
    let mut z = String::new();
    push_hyphenated(&mut z, 0);
    assert_eq!(z, uuid::Uuid::from_u128(0).to_string());
}

#[test]
fn unit_moves_its_users_to_a_unit() {
    let mut c = controller();
    start(&mut c, "a", A, address(1), None);
    start(&mut c, "b", B, address(2), None);
    connect(&mut c, A, "steve", STEVE);
    connect(&mut c, A, "alex", ALEX);
    let target = UnitTransferTarget { kind: Ok(UnitTargetType::Unit), target: Some(text(B)) };
    let out = UnitServiceImpl.transfer_users(&mut c, A, Some(target), vec![text(STEVE), text(ALEX)], 9);
    assert_eq!(out.result.unwrap(), 2);
    assert_eq!(out.messages.len(), 2);
    assert_eq!(out.messages[0].0, A);
    assert_eq!(out.messages[0].1.user, STEVE);
    assert_eq!(out.messages[1].1.port, 2);
    let user = c.users.get_user(ALEX).unwrap();
    assert!(matches!(&user.server, CurrentServer::Transfering(9, to) if to.uuid == B));
}

#[test]
fn unit_may_only_move_its_own_users() {
    let mut c = controller();
    start(&mut c, "a", A, address(1), None);
    start(&mut c, "b", B, address(2), None);
    connect(&mut c, A, "steve", STEVE);
    connect(&mut c, B, "alex", ALEX);
    let target = UnitTransferTarget { kind: Ok(UnitTargetType::Unit), target: Some(text(B)) };
    let out = UnitServiceImpl.transfer_users(&mut c, A, Some(target), vec![text(STEVE), text(ALEX)], 9);
    let e = out.result.unwrap_err();
    assert_eq!(e.code, Code::PermissionDenied);
    assert_eq!(e.message, format!("User {} is not connected to the requesting unit", text(ALEX)));
    assert_eq!(out.messages.len(), 1);
    let user = c.users.get_user(STEVE).unwrap();
    assert!(matches!(&user.server, CurrentServer::Transfering(9, _)));
}

#[test]
fn unit_transfer_refusals() {
    let mut c = controller();
    start(&mut c, "a", A, address(1), None);
    connect(&mut c, A, "steve", STEVE);
    let out = UnitServiceImpl.transfer_users(&mut c, B, None, vec![], 9);
    assert_eq!(out.result.unwrap_err().message, "The authenticated unit does not exist");
    let out = UnitServiceImpl.transfer_users(&mut c, A, None, vec![], 9);
    assert_eq!(out.result.unwrap_err().message, "Target must be provided");
    let t = UnitTransferTarget { kind: Err("unknown kind 7".to_string()), target: None };
    assert_eq!(UnitServiceImpl.transfer_users(&mut c, A, Some(t), vec![], 9).result.unwrap_err().message, "unknown kind 7");
    let t = UnitTransferTarget { kind: Ok(UnitTargetType::Deployment), target: Some("lobby".to_string()) };
    let e = UnitServiceImpl.transfer_users(&mut c, A, Some(t), vec![], 9).result.unwrap_err();
    assert_eq!(e.code, Code::NotFound);
    assert_eq!(e.message, "Deployment does not exist");
    let t = UnitTransferTarget { kind: Ok(UnitTargetType::Unit), target: Some(text(B)) };
    assert_eq!(UnitServiceImpl.transfer_users(&mut c, A, Some(t), vec![], 9).result.unwrap_err().message, "Unit does not exist");
    let t = UnitTransferTarget { kind: Ok(UnitTargetType::Unit), target: Some("x".to_string()) };
    assert!(UnitServiceImpl.transfer_users(&mut c, A, Some(t), vec![], 9).result.unwrap_err().message.starts_with("Failed to parse target UUID: "));
    let t = UnitTransferTarget { kind: Ok(UnitTargetType::Fallback), target: None };
    let out = UnitServiceImpl.transfer_users(&mut c, A, Some(t), vec![text(ALEX)], 9);
    assert_eq!(out.result.unwrap_err().message, format!("User {} is not connected to this controller", text(ALEX)));
    let t = UnitTransferTarget { kind: Ok(UnitTargetType::Fallback), target: None };
    let out = UnitServiceImpl.transfer_users(&mut c, A, Some(t), vec![text(STEVE)], 9);
    assert_eq!(out.result.unwrap_err().message, "Failed to resolve transfer");
    let t = UnitTransferTarget { kind: Ok(UnitTargetType::Fallback), target: None };
    let out = UnitServiceImpl.transfer_users(&mut c, A, Some(t), vec!["bad".to_string()], 9);
    assert!(out.result.unwrap_err().message.starts_with("Failed to parse user UUID: "));
    assert_eq!(UnitServiceImpl.transfer_users(&mut c, A, Some(UnitTransferTarget { kind: Ok(UnitTargetType::Fallback), target: None }), vec![], 9).result.unwrap(), 0);
}

#[test]
fn unit_target_without_address_leaves_user_uncounted() {
    let mut c = controller();
    start(&mut c, "a", A, address(1), None);
    start(&mut c, "b", B, vec![], None);
    connect(&mut c, A, "steve", STEVE);
    let target = UnitTransferTarget { kind: Ok(UnitTargetType::Unit), target: Some(text(B)) };
    let out = UnitServiceImpl.transfer_users(&mut c, A, Some(target), vec![text(STEVE)], 9);
    assert_eq!(out.result.unwrap(), 0);
    assert!(out.messages.is_empty());
    assert!(matches!(&c.users.get_user(STEVE).unwrap().server, CurrentServer::Connected(s) if s.uuid == A));
}

#[test]
fn unit_moves_users_to_a_deployment() {
    let mut groups = Groups::new();
    groups.create_group("lobby", vec!["node".to_string()], ScalingPolicy { minimum: 0, maximum: 1, priority: 0 }, Default::default(), Resources::default(), deployment(None));
    let t = Timeouts { startup: 100, restart: 50, heartbeat: 30, transfer: 20, empty_server: 1000 };
    let mut c = Controller::new(t, groups, Auth::empty());
    start(&mut c, "a", A, address(1), None);
    connect(&mut c, A, "steve", STEVE);
    let target = UnitTransferTarget { kind: Ok(UnitTargetType::Deployment), target: Some("lobby".to_string()) };
    let out = UnitServiceImpl.transfer_users(&mut c, A, Some(target), vec![text(STEVE)], 9);
    assert_eq!(out.result.unwrap_err().message, "Failed to resolve transfer");
}

#[test]
fn unit_reset_drops_its_listeners() {
    let mut c = controller();
    start(&mut c, "a", A, address(1), None);
    ServerServiceImpl.subscribe_to_transfers(&mut c, A).unwrap();
    UnitServiceImpl.reset(&mut c, A).unwrap();
    assert!(c.events.post(&EventKey::Transfer(A)).is_empty());
    assert_eq!(UnitServiceImpl.reset(&mut c, B).unwrap_err().message, "The authenticated unit does not exist");
}

#[test]
fn task_moves_users_and_skips_unknown_ones() {
    let mut c = controller();
    start(&mut c, "a", A, address(1), None);
    start(&mut c, "b", B, address(2), None);
    connect(&mut c, A, "steve", STEVE);
    let task = TransferUsersTask(Authorization::User("admin".to_string()), vec![ALEX, STEVE], TransferTarget::Server(B));
    let out = task.run(&mut c, 3);
    assert_eq!(out.result.unwrap(), 1);
    assert_eq!(out.messages[0].1.user, STEVE);
    assert_eq!(out.messages[0].0, A);
}

#[test]
fn task_stops_at_the_first_refusal() {
    let mut c = controller();
    start(&mut c, "a", A, address(1), None);
    start(&mut c, "b", B, address(2), None);
    start(&mut c, "c", C, vec![], Some(1));
    connect(&mut c, A, "steve", STEVE);
    connect(&mut c, B, "alex", ALEX);
    let auth = || Authorization::Server(NameAndUuid::new("a".to_string(), A));
    let out = TransferUsersTask(auth(), vec![STEVE, ALEX], TransferTarget::Server(B)).run(&mut c, 3);
    let e = out.result.unwrap_err();
    assert_eq!(e.code, Code::PermissionDenied);
    assert_eq!(e.message, "Missing permissions to transfer user");
    assert_eq!(out.messages.len(), 1);
    let out = TransferUsersTask(auth(), vec![STEVE], TransferTarget::Server(B)).run(&mut c, 4);
    assert_eq!(out.result.unwrap_err().message, "Missing permissions to transfer user");
    let admin = || Authorization::User("admin".to_string());
    let out = TransferUsersTask(admin(), vec![ALEX], TransferTarget::Server(C)).run(&mut c, 4);
    let e = out.result.unwrap_err();
    assert_eq!(e.code, Code::Unavailable);
    assert_eq!(e.message, "Target server seems to have no network address");
    let out = TransferUsersTask(admin(), vec![ALEX], TransferTarget::Group("none".to_string())).run(&mut c, 4);
    assert_eq!(out.result.unwrap_err().message, "Group not found");
    let out = TransferUsersTask(admin(), vec![ALEX], TransferTarget::Fallback).run(&mut c, 4);
    assert_eq!(out.result.unwrap_err().message, "Server not available");
}

#[test]
fn can_tick_guards_the_clock() {
    let c = controller();
    assert!(c.can_tick(0));
    assert!(!c.can_tick(u64::MAX));
}
