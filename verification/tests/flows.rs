use atomic_controller::auth::Auth;
use atomic_controller::controller::{Controller, Placement, Timeouts};
use atomic_controller::event::{ChannelMessage, EventKey};
use atomic_controller::group::{Groups, ScalingPolicy};
use atomic_controller::server::{
    Address, Allocation, Deployment, FallbackPolicy, Resources, Retention, StartRequest, State,
};
use atomic_controller::service::{
    AuthInterceptor, ServerServiceImpl, TargetKind, TransferRequestTarget,
};
use atomic_controller::status::Code;
use atomic_controller::transfer::Authorization;
use atomic_controller::user::CurrentServer;

const A: u128 = 0x11111111_2222_4333_8444_555555555555;
const B: u128 = 0x66666666_7777_4888_9999_aaaaaaaaaaaa;
const STEVE: u128 = 0x550e8400_e29b_41d4_a716_446655440000;
const ALEX: u128 = 0x123e4567_e89b_42d3_a456_426614174000;

fn text(u: u128) -> String {
    uuid::Uuid::from_u128(u).to_string()
}

fn timeouts() -> Timeouts {
    Timeouts { startup: 100, restart: 50, heartbeat: 30, transfer: 20, empty_server: 1000 }
}

fn deployment(fallback: Option<i32>) -> Deployment {
    Deployment {
        settings: vec![],
        environment: vec![],
        disk_retention: Retention::Temporary,
        image: "img".to_string(),
        max_players: 20,
        fallback: match fallback {
            Some(p) => FallbackPolicy { enabled: true, priority: p },
            None => FallbackPolicy { enabled: false, priority: 0 },
        },
    }
}

fn allocation(port: u16, fallback: Option<i32>) -> Allocation {
    Allocation {
        addresses: vec![Address { host: "10.0.0.1".to_string(), port }],
        resources: Resources::default(),
        deployment: deployment(fallback),
    }
}

fn request(name: &str, priority: i32) -> StartRequest {
    StartRequest {
        id: 0,
        when: None,
        name: name.to_string(),
        group: None,
        nodes: vec!["node".to_string()],
        resources: Resources::default(),
        deployment: deployment(None),
        priority,
        canceled: false,
    }
}

fn controller() -> Controller {
    Controller::new(timeouts(), Groups::new(), Auth::empty())
}

fn start(c: &mut Controller, name: &str, uuid: u128, port: u16, fallback: Option<i32>) -> String {
    c.start_server(request(name, 0), uuid, "node".to_string(), allocation(port, fallback), 0)
}

fn running(c: &mut Controller, uuid: u128) {
    ServerServiceImpl.beat_heart(c, uuid, 10).unwrap();
    ServerServiceImpl.mark_running(c, uuid).unwrap();
}

fn state(c: &Controller, uuid: u128) -> State {
    c.servers.get_server(uuid).unwrap().state
}

#[test]
fn started_server_authenticates_with_its_token() {
    let mut c = controller();
    let token = start(&mut c, "lobby-1", A, 25565, None);
    assert!(token.starts_with("actl_"));
    assert_eq!(token.len(), 5 + 64);
    match AuthInterceptor.call(&c.auth, &c.servers, Some(&token)) {
        Ok(Authorization::Server(id)) => {
            assert_eq!(id.uuid, A);
            assert_eq!(id.name, "lobby-1");
        }
        _ => panic!("the token of a running server names it"),
    }
}

#[test]
fn requests_without_valid_token_are_refused() {
    let c = controller();
    let e = AuthInterceptor.call(&c.auth, &c.servers, None).unwrap_err();
    assert_eq!(e.code, Code::Unauthenticated);
    assert_eq!(e.message, "No authorization token provided");
    let e = AuthInterceptor.call(&c.auth, &c.servers, Some("actl_nothing")).unwrap_err();
    assert_eq!(e.code, Code::Unauthenticated);
    assert_eq!(e.message, "Invalid authorization token provided");
}

#[test]
fn user_token_authenticates_the_user() {
    let mut c = controller();
    let admin = c.auth.register_user("admin", "actl_secret".to_string());
    assert_eq!(admin.username, "admin");
    match AuthInterceptor.call(&c.auth, &c.servers, Some("actl_secret")) {
        Ok(Authorization::User(name)) => assert_eq!(name, "admin"),
        _ => panic!("the token of a user names the user"),
    }
}

#[test]
fn life_cycle_of_a_server() {
    let mut c = controller();
    start(&mut c, "lobby-1", A, 25565, None);
    assert_eq!(state(&c, A), State::Starting);
    ServerServiceImpl.beat_heart(&mut c, A, 10).unwrap();
    assert_eq!(state(&c, A), State::Preparing);
    assert_eq!(c.servers.get_server(A).unwrap().health.next_checkin, 40);
    ServerServiceImpl.mark_ready(&mut c, A).unwrap();
    assert!(c.servers.get_server(A).unwrap().ready);
    ServerServiceImpl.mark_running(&mut c, A).unwrap();
    assert_eq!(state(&c, A), State::Running);
    ServerServiceImpl.request_stop(&mut c, A).unwrap();
    assert_eq!(state(&c, A), State::Stopping);
    assert!(!c.servers.get_server(A).unwrap().ready);
    assert_eq!(c.servers.get_stop_requests().len(), 1);
    let stopped = c.process_stops(20);
    assert_eq!(stopped.len(), 1);
    assert_eq!(stopped[0].uuid, A);
    assert!(c.servers.get_server(A).is_none());
    assert_eq!(c.servers.get_stop_requests().len(), 0);
}

#[test]
fn mark_running_needs_a_preparing_server() {
    let mut c = controller();
    start(&mut c, "lobby-1", A, 25565, None);
    ServerServiceImpl.mark_running(&mut c, A).unwrap();
    assert_eq!(state(&c, A), State::Starting);
    ServerServiceImpl.request_stop(&mut c, A).unwrap();
    assert_eq!(state(&c, A), State::Starting);
    assert_eq!(c.servers.get_stop_requests().len(), 0);
}

#[test]
fn unknown_server_is_refused() {
    let mut c = controller();
    let e = ServerServiceImpl.beat_heart(&mut c, A, 10).unwrap_err();
    assert_eq!(e.code, Code::NotFound);
    assert_eq!(e.message, "The authenticated server does not exist");
    let e = ServerServiceImpl.mark_ready(&mut c, A).unwrap_err();
    assert_eq!(e.code, Code::NotFound);
}

#[test]
fn stopped_server_leaves_no_trace() {
    let mut c = controller();
    let token = start(&mut c, "lobby-1", A, 25565, None);
    start(&mut c, "lobby-2", B, 25566, None);
    ServerServiceImpl.user_connected(&mut c, A, "steve".to_string(), &text(STEVE)).unwrap();
    ServerServiceImpl.user_connected(&mut c, B, "alex".to_string(), &text(ALEX)).unwrap();
    ServerServiceImpl.subscribe_to_channel(&mut c, A, "chat".to_string()).unwrap();
    let kept = ServerServiceImpl.subscribe_to_channel(&mut c, B, "chat".to_string()).unwrap();
    let stopped = c.stop_server(A);
    assert_eq!(stopped.len(), 1);
    assert!(!c.servers.contains(A));
    assert!(c.servers.contains(B));
    assert!(AuthInterceptor.call(&c.auth, &c.servers, Some(&token)).is_err());
    assert_eq!(c.users.get_user_count(), 1);
    assert!(c.users.get_user(STEVE).is_none());
    let message = ChannelMessage { channel: "chat".to_string(), data: "hi".to_string() };
    assert_eq!(ServerServiceImpl.send_message_to_channel(&c, B, &message).unwrap(), vec![kept]);
}

#[test]
fn users_connect_and_disconnect() {
    let mut c = controller();
    start(&mut c, "lobby-1", A, 25565, None);
    ServerServiceImpl.user_connected(&mut c, A, "steve".to_string(), &text(STEVE)).unwrap();
    assert_eq!(c.users.get_user_count(), 1);
    assert_eq!(c.servers.get_server(A).unwrap().connected_users, 1);
    let user = c.users.get_user(STEVE).unwrap();
    assert_eq!(user.id.name, "steve");
    assert!(matches!(&user.server, CurrentServer::Connected(s) if s.uuid == A));
    ServerServiceImpl.user_disconnected(&mut c, A, &text(STEVE)).unwrap();
    assert_eq!(c.users.get_user_count(), 0);
    assert_eq!(c.servers.get_server(A).unwrap().connected_users, 0);
}

#[test]
fn bad_user_uuid_is_refused() {
    let mut c = controller();
    start(&mut c, "lobby-1", A, 25565, None);
    let e = ServerServiceImpl.user_connected(&mut c, A, "steve".to_string(), "not-a-uuid").unwrap_err();
    assert_eq!(e.code, Code::InvalidArgument);
    assert!(e.message.starts_with("Failed to parse UUID: "));
    assert!(e.message.len() > "Failed to parse UUID: ".len());
    assert_eq!(c.users.get_user_count(), 0);
}

#[test]
fn only_the_users_server_may_disconnect_it() {
    let mut c = controller();
    start(&mut c, "lobby-1", A, 25565, None);
    start(&mut c, "lobby-2", B, 25566, None);
    ServerServiceImpl.user_connected(&mut c, A, "steve".to_string(), &text(STEVE)).unwrap();
    ServerServiceImpl.user_connected(&mut c, B, "alex".to_string(), &text(ALEX)).unwrap();
    let e = ServerServiceImpl.user_disconnected(&mut c, B, &text(STEVE)).unwrap_err();
    assert_eq!(e.code, Code::PermissionDenied);
    assert_eq!(e.message, "You are not allowed to disconnect this user");
    assert!(c.users.get_user(STEVE).is_some());
    assert_eq!(c.servers.get_server(B).unwrap().connected_users, 0);
}

#[test]
fn all_users_move_to_the_fallback() {
    let mut c = controller();
    start(&mut c, "lobby-1", A, 25565, None);
    start(&mut c, "fallback", B, 30000, Some(5));
    running(&mut c, B);
    ServerServiceImpl.user_connected(&mut c, A, "steve".to_string(), &text(STEVE)).unwrap();
    ServerServiceImpl.user_connected(&mut c, A, "alex".to_string(), &text(ALEX)).unwrap();
    let moved = ServerServiceImpl.transfer_all_users(&mut c, A, 77).unwrap();
    assert_eq!(moved.len(), 2);
    assert_eq!(moved[0].user, STEVE);
    assert_eq!(moved[1].user, ALEX);
    assert_eq!(moved[0].host, "10.0.0.1");
    assert_eq!(moved[0].port, 30000);
    let user = c.users.get_user(STEVE).unwrap();
    assert!(matches!(&user.server, CurrentServer::Transfering(77, to) if to.uuid == B));
}

#[test]
fn without_fallback_nobody_moves() {
    let mut c = controller();
    start(&mut c, "lobby-1", A, 25565, None);
    start(&mut c, "lobby-2", B, 25566, None);
    running(&mut c, B);
    ServerServiceImpl.user_connected(&mut c, A, "steve".to_string(), &text(STEVE)).unwrap();
    let moved = ServerServiceImpl.transfer_all_users(&mut c, A, 77).unwrap();
    assert!(moved.is_empty());
    let user = c.users.get_user(STEVE).unwrap();
    assert!(matches!(&user.server, CurrentServer::Connected(s) if s.uuid == A));
}

#[test]
fn transfer_one_user_to_a_server() {
    let mut c = controller();
    start(&mut c, "lobby-1", A, 25565, None);
    start(&mut c, "lobby-2", B, 25566, None);
    ServerServiceImpl.user_connected(&mut c, A, "steve".to_string(), &text(STEVE)).unwrap();
    let target = TransferRequestTarget { kind: TargetKind::Server, target: text(B) };
    let m = ServerServiceImpl
        .transfer_user(&mut c, A, Some(text(STEVE)), Some(target), 5)
        .unwrap()
        .unwrap();
    assert_eq!(m.user, STEVE);
    assert_eq!(m.port, 25566);
    let user = c.users.get_user(STEVE).unwrap();
    assert!(matches!(&user.server, CurrentServer::Transfering(5, to) if to.uuid == B && to.name == "lobby-2"));
}

#[test]
fn transfer_requests_are_checked() {
    let mut c = controller();
    start(&mut c, "lobby-1", A, 25565, None);
    ServerServiceImpl.user_connected(&mut c, A, "steve".to_string(), &text(STEVE)).unwrap();
    let e = ServerServiceImpl.transfer_user(&mut c, A, None, None, 5).unwrap_err();
    assert_eq!(e.message, "User must be provided");
    let e = ServerServiceImpl.transfer_user(&mut c, A, Some(text(STEVE)), None, 5).unwrap_err();
    assert_eq!(e.message, "Target must be provided");
    let t = TransferRequestTarget { kind: TargetKind::Server, target: text(B) };
    let e = ServerServiceImpl.transfer_user(&mut c, A, Some("bad".to_string()), Some(t), 5).unwrap_err();
    assert!(e.message.starts_with("Failed to parse user UUID: "));
    let t = TransferRequestTarget { kind: TargetKind::Group, target: "lobby".to_string() };
    let e = ServerServiceImpl.transfer_user(&mut c, A, Some(text(STEVE)), Some(t), 5).unwrap_err();
    assert!(e.message.starts_with("Failed to parse target UUID: "));
    let t = TransferRequestTarget { kind: TargetKind::Server, target: text(B) };
    let e = ServerServiceImpl.transfer_user(&mut c, A, Some(text(ALEX)), Some(t), 5).unwrap_err();
    assert_eq!(e.code, Code::NotFound);
    assert_eq!(e.message, "User is not connected to this controller");
    let t = TransferRequestTarget { kind: TargetKind::Server, target: text(B) };
    let e = ServerServiceImpl.transfer_user(&mut c, A, Some(text(STEVE)), Some(t), 5).unwrap_err();
    assert_eq!(e.message, "Server does not exist");
    let t = TransferRequestTarget { kind: TargetKind::Group, target: text(B) };
    let e = ServerServiceImpl.transfer_user(&mut c, A, Some(text(STEVE)), Some(t), 5).unwrap_err();
    assert_eq!(e.message, "Group does not exist");
}

#[test]
fn listeners_hear_their_events() {
    let mut c = controller();
    start(&mut c, "lobby-1", A, 25565, None);
    let t = ServerServiceImpl.subscribe_to_transfers(&mut c, A).unwrap();
    let ch = ServerServiceImpl.subscribe_to_channel(&mut c, A, "chat".to_string()).unwrap();
    assert_eq!(c.events.post(&EventKey::Transfer(A)), vec![t]);
    assert_eq!(c.events.post(&EventKey::Channel("chat".to_string())), vec![ch]);
    assert!(c.events.post(&EventKey::Channel("other".to_string())).is_empty());
    ServerServiceImpl.unsubscribe_from_channel(&mut c, A, "chat").unwrap();
    assert!(c.events.post(&EventKey::Channel("chat".to_string())).is_empty());
    assert_eq!(c.events.post(&EventKey::Transfer(A)), vec![t]);
}

#[test]
fn tick_restarts_servers_that_missed_check_in() {
    let mut c = controller();
    start(&mut c, "lobby-1", A, 25565, None);
    let r = c.tick(100);
    assert!(r.restarted.is_empty());
    let r = c.tick(101);
    assert_eq!(r.restarted, vec![A]);
    assert_eq!(state(&c, A), State::Restarting);
    assert_eq!(c.servers.get_server(A).unwrap().health.next_checkin, 151);
}

#[test]
fn tick_queues_what_groups_miss_and_hands_out_starts() {
    let mut groups = Groups::new();
    let scaling = ScalingPolicy { minimum: 2, maximum: 10, priority: 3 };
    let created = groups.create_group(
        "lobby",
        vec!["node".to_string()],
        scaling, Default::default(),
        Resources::default(),
        deployment(None),
    );
    assert_eq!(created, atomic_controller::group::CreationResult::Created);
    let mut c = Controller::new(timeouts(), groups, Auth::empty());
    c.servers.queue_server(request("manual", 9));
    let r = c.tick(0);
    let mut names: Vec<&str> = r.starts.iter().map(|s| s.name.as_str()).collect();
    assert_eq!(names[0], "manual");
    names.sort();
    assert_eq!(names, vec!["lobby-1", "lobby-2", "manual"]);
    for s in &r.starts[1..] {
        assert_eq!(s.priority, 3);
        let info = s.group.as_ref().unwrap();
        assert_eq!(info.group, "lobby");
        assert_eq!(s.name, format!("lobby-{}", info.server_id));
    }
    assert!(c.servers.get_start_requests().is_empty());
    let members = c.groups.find_by_name("lobby").unwrap().get_members().len();
    assert_eq!(members, 2);
}

#[test]
fn group_tick_counts_each_queued_server_twice_against_the_maximum() {
    let mut groups = Groups::new();
    let scaling = ScalingPolicy { minimum: 5, maximum: 5, priority: 0 };
    groups.create_group("arena", vec!["node".to_string()], scaling, Default::default(), Resources::default(), deployment(None));
    let mut c = Controller::new(timeouts(), groups, Auth::empty());
    let r = c.tick(0);
    assert_eq!(r.starts.len(), 3);
}

#[test]
fn due_stops_wait_for_their_time() {
    let mut c = controller();
    start(&mut c, "lobby-1", A, 25565, None);
    c.servers._stop_server(500, A);
    assert!(c.process_stops(499).is_empty());
    assert!(c.servers.contains(A));
    assert_eq!(c.process_stops(500).len(), 1);
    assert!(!c.servers.contains(A));
}

#[test]
fn canceled_start_requests_are_dropped_at_the_tick() {
    let mut c = controller();
    let kept = c.servers.queue_server(request("kept", 0));
    let gone = c.servers.queue_server(request("gone", 0));
    c.servers.cancel_start(gone);
    let r = c.tick(0);
    assert_eq!(r.starts.len(), 1);
    assert_eq!(r.starts[0].id, kept);
    assert!(c.servers.get_start_requests().is_empty());
}

#[test]
fn first_node_that_accepts_gets_the_server() {
    let mut c = controller();
    let mut r = request("lobby-1", 0);
    r.nodes = vec!["a".to_string(), "b".to_string(), "c".to_string()];
    let placed = c.place_start(r, vec![None, Some(allocation(7, None)), Some(allocation(8, None))], 5);
    match placed {
        Placement::Started(uuid, node, token) => {
            assert_eq!(node, "b");
            let s = c.servers.get_server(uuid).unwrap();
            assert_eq!(s.node, "b");
            assert_eq!(s.allocation.addresses[0].port, 7);
            assert_eq!(s.token, token);
            assert_eq!(s.state, State::Starting);
            assert_eq!(uuid::Uuid::from_u128(uuid).get_version_num(), 4);
        }
        Placement::Requeued => panic!("a node accepted"),
    }
    assert!(c.servers.get_start_requests().is_empty());
}

#[test]
fn request_stays_queued_when_no_node_accepts() {
    let mut c = controller();
    let mut r = request("lobby-1", 0);
    r.nodes = vec!["a".to_string(), "b".to_string()];
    assert!(matches!(c.place_start(r, vec![None, None], 5), Placement::Requeued));
    let mut r = request("lobby-2", 0);
    r.nodes = vec![];
    assert!(matches!(c.place_start(r, vec![Some(allocation(1, None))], 5), Placement::Requeued));
    let q = c.servers.get_start_requests();
    assert_eq!(q.len(), 2);
    assert_eq!(q[0].name, "lobby-1");
    assert!(c.servers.get_servers().is_empty());
}

#[test]
fn stopping_a_server_also_drops_users_of_servers_already_gone() {
    let mut c = controller();
    start(&mut c, "a", A, 1, None);
    start(&mut c, "b", B, 2, None);
    ServerServiceImpl.connect_user(&mut c, A, atomic_controller::user::NameAndUuid::new("steve".to_string(), STEVE)).unwrap();
    ServerServiceImpl.connect_user(&mut c, B, atomic_controller::user::NameAndUuid::new("alex".to_string(), ALEX)).unwrap();
    c.servers.remove_server(A);
    assert_eq!(c.users.get_user_count(), 2);
    c.stop_server(B);
    assert_eq!(c.users.get_user_count(), 0);
}

#[test]
fn a_stopped_group_server_gives_its_name_back() {
    let mut groups = Groups::new();
    groups.create_group(
        "lobby",
        vec!["node".to_string()],
        ScalingPolicy { minimum: 1, maximum: 3, priority: 0 },
        Default::default(),
        Resources::default(),
        deployment(None),
    );
    let mut c = Controller::new(timeouts(), groups, Auth::empty());
    let r = c.tick(0);
    assert_eq!(r.starts.len(), 1);
    assert_eq!(r.starts[0].name, "lobby-1");
    let request = r.starts.into_iter().next().unwrap();
    let uuid = match c.place_start(request, vec![Some(allocation(5, None))], 0) {
        Placement::Started(uuid, _, _) => uuid,
        Placement::Requeued => panic!("the node accepted"),
    };
    c.stop_server(uuid);
    let r = c.tick(1);
    assert_eq!(r.starts.len(), 1);
    assert_eq!(r.starts[0].name, "lobby-1");
}

#[test]
fn a_taken_uuid_is_replaced_by_the_new_server() {
    let mut c = controller();
    start(&mut c, "a", A, 1, None);
    let placed = c.place_start_with(request("b", 0), vec![Some(allocation(2, None))], A, 0);
    assert!(matches!(placed, Placement::Started(u, _, _) if u == A));
    assert_eq!(c.servers.get_servers().len(), 1);
    assert_eq!(c.servers.get_server(A).unwrap().name, "b");
    assert!(c.servers.get_start_requests().is_empty());
}
