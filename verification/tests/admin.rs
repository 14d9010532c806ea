use atomic_controller::admin::{AdminServiceImpl, DeploymentValue, SpecValue};
use atomic_controller::auth::Auth;
use atomic_controller::controller::{Controller, Timeouts};
use atomic_controller::event::ChannelMessage;
use atomic_controller::group::{Groups, ScalingPolicy, ScalingRule};
use atomic_controller::request::ScalingValue;
use atomic_controller::server::{
    Address, Allocation, Deployment, FallbackPolicy, KeyValue, Resources, Retention, StartRequest,
    State,
};
use atomic_controller::service::ServerServiceImpl;
use atomic_controller::status::Code;
use atomic_controller::unit_service::{UnitServiceImpl, UnitTargetType, UnitTransferTarget};
use atomic_controller::user::{CurrentServer, NameAndUuid};

const A: u128 = 0x11111111_2222_4333_8444_555555555555;
const B: u128 = 0x66666666_7777_4888_9999_aaaaaaaaaaaa;
const STEVE: u128 = 0x550e8400_e29b_41d4_a716_446655440000;
const ALEX: u128 = 0x123e4567_e89b_42d3_a456_426614174000;

fn text(u: u128) -> String {
    uuid::Uuid::from_u128(u).to_string()
}

fn deployment() -> Deployment {
    Deployment {
        settings: vec![],
        environment: vec![],
        disk_retention: Retention::Temporary,
        image: "img".to_string(),
        max_players: 20,
        fallback: FallbackPolicy { enabled: false, priority: 0 },
    }
}

fn controller() -> Controller {
    let t = Timeouts { startup: 100, restart: 50, heartbeat: 30, transfer: 20, empty_server: 1000 };
    Controller::new(t, Groups::new(), Auth::empty())
}

fn start(c: &mut Controller, name: &str, uuid: u128, port: u16) -> String {
    let request = StartRequest {
        id: 0,
        when: None,
        name: name.to_string(),
        group: None,
        nodes: vec!["node".to_string()],
        resources: Resources::default(),
        deployment: deployment(),
        priority: 0,
        canceled: false,
    };
    let addresses = vec![Address { host: "10.0.0.2".to_string(), port }];
    let allocation = Allocation { addresses, resources: Resources::default(), deployment: deployment() };
    c.start_server(request, uuid, "node".to_string(), allocation, 0)
}

fn connect(c: &mut Controller, server: u128, name: &str, user: u128) {
    ServerServiceImpl.connect_user(c, server, NameAndUuid::new(name.to_string(), user)).unwrap();
}

fn value(name: &str, cloudlets: &[&str]) -> DeploymentValue {
    DeploymentValue {
        name: name.to_string(),
        cloudlets: cloudlets.iter().map(|s| s.to_string()).collect(),
        constraints: None,
        scaling: None,
        resources: None,
        spec: None,
    }
}

fn known() -> Vec<String> {
    vec!["alpha".to_string(), "beta".to_string()]
}

#[test]
fn retention_numbers() {
    assert_eq!(AdminServiceImpl::retention_from(1), Retention::Permanent);
    assert_eq!(AdminServiceImpl::retention_from(0), Retention::Temporary);
    assert_eq!(AdminServiceImpl::retention_from(7), Retention::Temporary);
}

#[test]
fn spec_defaults() {
    let d = AdminServiceImpl::spec_from(None);
    assert!(d.settings.is_empty() && d.environment.is_empty());
    assert_eq!(d.image, "");
    assert_eq!(d.disk_retention, Retention::Temporary);
    assert_eq!(d.fallback, FallbackPolicy { enabled: false, priority: 0 });
    let s = SpecValue {
        image: "paper".to_string(),
        max_players: 64,
        settings: vec![KeyValue { key: "k".to_string(), value: "v".to_string() }],
        environment: vec![],
        disk_retention: Some(1),
        fallback: Some(FallbackPolicy { enabled: true, priority: 4 }),
    };
    let d = AdminServiceImpl::spec_from(Some(s));
    assert_eq!(d.image, "paper");
    assert_eq!(d.settings.len(), 1);
    assert_eq!(d.disk_retention, Retention::Permanent);
    assert_eq!(d.fallback, FallbackPolicy { enabled: true, priority: 4 });
}

#[test]
fn unknown_cloudlet_is_named() {
    let names = vec!["alpha".to_string(), "gamma".to_string(), "delta".to_string()];
    assert_eq!(AdminServiceImpl::find_unknown(&names, &known()), Some(1));
    assert_eq!(AdminServiceImpl::find_unknown(&vec!["beta".to_string()], &known()), None);
    let mut c = controller();
    let e = AdminServiceImpl.create_deployment(&mut c, &known(), value("lobby", &["alpha", "gamma", "delta"])).unwrap_err();
    assert_eq!(e.code, Code::InvalidArgument);
    assert_eq!(e.message, "Cloudlet gamma does not exist");
    assert_eq!(c.groups.get_groups().len(), 0);
}

#[test]
fn deployment_created_once() {
    let mut c = controller();
    let mut v = value("lobby", &["alpha"]);
    v.constraints = Some(ScalingPolicy { minimum: 1, maximum: 3, priority: 2 });
    AdminServiceImpl.create_deployment(&mut c, &known(), v).unwrap();
    let g = &c.groups.get_groups()[0];
    assert_eq!(g.get_name(), "lobby");
    assert_eq!(g.get_scaling(), ScalingPolicy { minimum: 1, maximum: 3, priority: 2 });
    let e = AdminServiceImpl.create_deployment(&mut c, &known(), value("lobby", &["beta"])).unwrap_err();
    assert_eq!(e.code, Code::AlreadyExists);
    assert_eq!(e.message, "Deployment already exists");
    let e = AdminServiceImpl.create_deployment(&mut c, &known(), value("hub", &[])).unwrap_err();
    assert_eq!(e.code, Code::FailedPrecondition);
    assert_eq!(e.message, "No nodes provided");
    assert_eq!(AdminServiceImpl.get_deployments(&c), vec!["lobby".to_string()]);
    assert!(AdminServiceImpl.delete_deployment(&mut c, "lobby").is_ok());
    let e = AdminServiceImpl.delete_deployment(&mut c, "hub").unwrap_err();
    assert_eq!((e.code, e.message.as_str()), (Code::NotFound, "Deployment not found"));
}

#[test]
fn unit_shown_in_full() {
    let mut c = controller();
    let token = start(&mut c, "a-1", A, 25565);
    connect(&mut c, A, "steve", STEVE);
    let v = AdminServiceImpl.get_unit(&c, &text(A)).unwrap();
    assert_eq!(v.name, "a-1");
    assert_eq!(v.uuid, text(A));
    assert_eq!(v.deployment, None);
    assert_eq!(v.cloudlet, "node");
    assert_eq!(v.connected_users, 1);
    assert!(!v.ready);
    assert_eq!(v.auth_token, token);
    assert_eq!(v.allocation.addresses[0].port, 25565);
    assert_eq!(v.state, State::Starting);
    let e = AdminServiceImpl.get_unit(&c, &text(B)).unwrap_err();
    assert_eq!((e.code, e.message.as_str()), (Code::NotFound, "Unit not found"));
    let e = AdminServiceImpl.get_unit(&c, "nope").unwrap_err();
    assert_eq!(e.code, Code::InvalidArgument);
    assert!(e.message.starts_with("Invalid unit UUID: "));
}

#[test]
fn listings() {
    let mut c = controller();
    start(&mut c, "a-1", A, 1);
    start(&mut c, "b-1", B, 2);
    connect(&mut c, A, "steve", STEVE);
    let units = AdminServiceImpl.get_units(&c);
    assert_eq!(units.len(), 2);
    assert_eq!(units[1].name, "b-1");
    assert_eq!(units[1].uuid, text(B));
    assert_eq!(units[0].cloudlet, "node");
    let users = AdminServiceImpl.get_users(&c);
    assert_eq!(users.len(), 1);
    assert_eq!(users[0].name, "steve");
    assert_eq!(users[0].uuid, "550e8400-e29b-41d4-a716-446655440000");
}

#[test]
fn deleting_a_unit_stops_it_once() {
    let mut c = controller();
    start(&mut c, "a-1", A, 1);
    AdminServiceImpl.delete_unit(&mut c, &text(A)).unwrap();
    let s = c.servers.get_server(A).unwrap();
    assert_eq!(s.state, State::Stopping);
    assert!(!s.ready);
    assert_eq!(c.servers.get_stop_requests().len(), 1);
    AdminServiceImpl.delete_unit(&mut c, &text(A)).unwrap();
    assert_eq!(c.servers.get_stop_requests().len(), 1);
    let e = AdminServiceImpl.delete_unit(&mut c, &text(B)).unwrap_err();
    assert_eq!((e.code, e.message.as_str()), (Code::NotFound, "Unit not found"));
    let e = AdminServiceImpl.delete_unit(&mut c, "x").unwrap_err();
    assert!(e.message.starts_with("Failed to parse UUID of the unit: "));
}

#[test]
fn admin_moves_any_user() {
    let mut c = controller();
    start(&mut c, "a", A, 1);
    start(&mut c, "b", B, 2);
    connect(&mut c, A, "steve", STEVE);
    connect(&mut c, B, "alex", ALEX);
    let target = UnitTransferTarget { kind: Ok(UnitTargetType::Unit), target: Some(text(B)) };
    let out = AdminServiceImpl.transfer_users(&mut c, Some(target), vec![text(STEVE), text(ALEX)], 5);
    assert_eq!(out.result.unwrap(), 2);
    assert_eq!(out.messages[0].0, A);
    assert_eq!(out.messages[1].0, B);
    let user = c.users.get_user(STEVE).unwrap();
    assert!(matches!(&user.server, CurrentServer::Transfering(5, to) if to.uuid == B));
    let target = UnitTransferTarget { kind: Ok(UnitTargetType::Fallback), target: None };
    let out = AdminServiceImpl.transfer_users(&mut c, Some(target), vec![text(0)], 5);
    let e = out.result.unwrap_err();
    assert_eq!((e.code, e.message.as_str()), (Code::NotFound, "User is not connected to this controller"));
}

#[test]
fn unit_requests_of_a_gone_unit() {
    let mut c = controller();
    let e = UnitServiceImpl.beat_heart(&mut c, A, 1).unwrap_err();
    assert_eq!((e.code, e.message.as_str()), (Code::NotFound, "The authenticated unit does not exist"));
    assert!(UnitServiceImpl.mark_ready(&mut c, A).is_err());
    assert!(UnitServiceImpl.request_stop(&mut c, A).is_err());
    assert!(UnitServiceImpl.subscribe_to_channel(&mut c, A, "chat".to_string()).is_err());
}

#[test]
fn unit_life_cycle() {
    let mut c = controller();
    start(&mut c, "a", A, 1);
    UnitServiceImpl.beat_heart(&mut c, A, 10).unwrap();
    assert_eq!(c.servers.get_server(A).unwrap().state, State::Preparing);
    UnitServiceImpl.mark_running(&mut c, A).unwrap();
    UnitServiceImpl.mark_ready(&mut c, A).unwrap();
    assert!(c.servers.get_server(A).unwrap().ready);
    UnitServiceImpl.mark_not_ready(&mut c, A).unwrap();
    assert!(!c.servers.get_server(A).unwrap().ready);
    UnitServiceImpl.user_connected(&mut c, A, "steve".to_string(), &text(STEVE)).unwrap();
    assert_eq!(c.servers.get_server(A).unwrap().connected_users, 1);
    let e = UnitServiceImpl.user_connected(&mut c, A, "x".to_string(), "bad").unwrap_err();
    assert!(e.message.starts_with("Failed to parse UUID: "));
    UnitServiceImpl.user_disconnected(&mut c, A, &text(STEVE)).unwrap();
    assert_eq!(c.servers.get_server(A).unwrap().connected_users, 0);
    assert!(c.users.get_user(STEVE).is_none());
    UnitServiceImpl.request_stop(&mut c, A).unwrap();
    assert_eq!(c.servers.get_server(A).unwrap().state, State::Stopping);
}

#[test]
fn unit_channels() {
    let mut c = controller();
    start(&mut c, "a", A, 1);
    let id = UnitServiceImpl.subscribe_to_channel(&mut c, A, "chat".to_string()).unwrap();
    let t = UnitServiceImpl.subscribe_to_transfers(&mut c, A).unwrap();
    assert_ne!(id, t);
    let m = ChannelMessage { channel: "chat".to_string(), data: "hi".to_string() };
    assert_eq!(UnitServiceImpl.send_message_to_channel(&c, A, &m).unwrap(), vec![id]);
    UnitServiceImpl.unsubscribe_from_channel(&mut c, A, "chat").unwrap();
    assert!(UnitServiceImpl.send_message_to_channel(&c, A, &m).unwrap().is_empty());
}

#[test]
fn deployment_shown_in_full() {
    let mut c = controller();
    let mut v = value("lobby", &["alpha", "beta"]);
    v.resources = Some(Resources { memory: 512, swap: 0, cpu: 100, io: 0, disk: 1024, addresses: 1 });
    v.spec = Some(SpecValue {
        image: "paper".to_string(),
        max_players: 64,
        settings: vec![],
        environment: vec![KeyValue { key: "EULA".to_string(), value: "true".to_string() }],
        disk_retention: None,
        fallback: None,
    });
    AdminServiceImpl.create_deployment(&mut c, &known(), v).unwrap();
    let d = AdminServiceImpl.get_deployment(&c, "lobby").unwrap();
    assert_eq!(d.name, "lobby");
    assert_eq!(d.cloudlets, vec!["alpha".to_string(), "beta".to_string()]);
    assert_eq!(d.constraints, ScalingPolicy { minimum: 0, maximum: 0, priority: 0 });
    assert_eq!(d.resources.memory, 512);
    assert_eq!(d.spec.image, "paper");
    assert_eq!(d.spec.environment[0].key, "EULA");
    assert_eq!(d.spec.disk_retention, Retention::Temporary);
    let e = AdminServiceImpl.get_deployment(&c, "hub").unwrap_err();
    assert_eq!((e.code, e.message.as_str()), (Code::NotFound, "Deployment not found"));
}

#[test]
fn stopping_every_unit_on_a_cloudlet() {
    let mut c = controller();
    start(&mut c, "a", A, 1);
    start(&mut c, "b", B, 2);
    c.servers.stop_all_on_node("node");
    let q = c.servers.get_stop_requests();
    assert_eq!(q.len(), 2);
    assert_eq!((q[0].server, q[1].server), (A, B));
    c.servers.stop_all_on_node("other");
    assert_eq!(c.servers.get_stop_requests().len(), 2);
}

#[test]
fn deployment_keeps_its_scaling_policy() {
    let mut c = controller();
    let mut v = value("lobby", &["alpha"]);
    v.scaling = Some(ScalingValue { start_threshold: 0.9f32.to_bits(), stop_empty: true });
    AdminServiceImpl.create_deployment(&mut c, &known(), v).unwrap();
    let g = c.groups.find_by_name("lobby").unwrap();
    assert_eq!(g.rule, ScalingRule { enabled: true, start_threshold: 0.9f32.to_bits(), stop_empty: true });
    AdminServiceImpl.create_deployment(&mut c, &known(), value("hub", &["beta"])).unwrap();
    assert_eq!(c.groups.find_by_name("hub").unwrap().rule, ScalingRule::default());
}

#[test]
fn a_listed_uuid_finds_its_unit() {
    let mut c = controller();
    start(&mut c, "a-1", A, 1);
    let listed = AdminServiceImpl.get_units(&c);
    let found = AdminServiceImpl.get_unit(&c, &listed[0].uuid).unwrap();
    assert_eq!(found.name, "a-1");
    let simple = uuid::Uuid::from_u128(A).simple().to_string();
    assert_eq!(AdminServiceImpl.get_unit(&c, &simple).unwrap().name, "a-1");
}
