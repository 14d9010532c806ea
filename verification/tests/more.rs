use atomic_controller::auth::{Auth, StoredUser};
use atomic_controller::channel::{ChannelSubscriber, Channels};
use atomic_controller::controller::{Controller, Timeouts};
use atomic_controller::event::EventBus;
use atomic_controller::event::EventKey;
use atomic_controller::group::{GroupedServer, Groups, ScalingPolicy, ScalingRule, StoredGroup};
use atomic_controller::request::{
    deployment_from_request, ScalingValue, UpdateGroupTask, DeploymentRequest, ManageServiceImpl, TargetRequest, TargetType,
};
use atomic_controller::server::{
    Address, Allocation, Deployment, FallbackPolicy, Resources, Retention, StartRequest, State,
};
use atomic_controller::status::Code;
use atomic_controller::task::{
    BeatTask, CreateGroupTask, GetGroupTask, GetGroupsTask, GetServerFromNameTask, GetServerTask,
    GetServersTask, GetUserFromNameTask, GetUserTask, GetUsersTask, RequestStopTask,
    SetReadyTask, SetRunningTask, UserConnectedTask, UserCountTask, UserDisconnectedTask,
};
use atomic_controller::transfer::{Authorization, TransferTarget};
use atomic_controller::user::NameAndUuid;

const A: u128 = 0x11111111_2222_4333_8444_555555555555;
const STEVE: u128 = 0x550e8400_e29b_41d4_a716_446655440000;

fn deployment() -> Deployment {
    Deployment {
        settings: vec![],
        environment: vec![],
        disk_retention: Retention::Temporary,
        image: "img".to_string(),
        max_players: 20,
        fallback: FallbackPolicy { enabled: false, priority: 0 },
    }
}

fn controller_with_server() -> Controller {
    let t = Timeouts { startup: 100, restart: 50, heartbeat: 30, transfer: 20, empty_server: 1000 };
    let mut c = Controller::new(t, Groups::new(), Auth::empty());
    let request = StartRequest {
        id: 0,
        when: None,
        name: "lobby-1".to_string(),
        group: None,
        nodes: vec!["node".to_string()],
        resources: Resources::default(),
        deployment: deployment(),
        priority: 0,
        canceled: false,
    };
    let allocation = Allocation {
        addresses: vec![Address { host: "10.0.0.1".to_string(), port: 25565 }],
        resources: Resources::default(),
        deployment: deployment(),
    };
    c.start_server(request, A, "node".to_string(), allocation, 0);
    c
}

fn server_auth() -> Authorization {
    Authorization::Server(NameAndUuid::new("lobby-1".to_string(), A))
}

#[test]
fn server_tasks_act_for_their_server() {
    let mut c = controller_with_server();
    BeatTask { auth: server_auth() }.run(&mut c, 5).unwrap();
    assert_eq!(c.servers.get_server(A).unwrap().state, State::Preparing);
    SetRunningTask(server_auth()).run(&mut c).unwrap();
    assert_eq!(c.servers.get_server(A).unwrap().state, State::Running);
    SetReadyTask { server: A, ready: true }.run(&mut c).unwrap();
    assert!(c.servers.get_server(A).unwrap().ready);
    RequestStopTask(server_auth()).run(&mut c).unwrap();
    assert_eq!(c.servers.get_stop_requests().len(), 1);
}

#[test]
fn server_tasks_refuse_users() {
    let mut c = controller_with_server();
    let e = BeatTask { auth: Authorization::User("admin".to_string()) }.run(&mut c, 5).unwrap_err();
    assert_eq!(e.code, Code::PermissionDenied);
    assert_eq!(e.message, "Only a server can make this request");
    assert_eq!(c.servers.get_server(A).unwrap().state, State::Starting);
    let e = SetReadyTask { server: 42, ready: true }.run(&mut c).unwrap_err();
    assert_eq!(e.code, Code::NotFound);
}

#[test]
fn user_tasks() {
    let mut c = controller_with_server();
    UserConnectedTask(server_auth(), NameAndUuid::new("steve".to_string(), STEVE)).run(&mut c).unwrap();
    assert_eq!(UserCountTask.run(&c), 1);
    let item = GetUserTask(STEVE).run(&c).unwrap();
    assert_eq!(item.name, "steve");
    assert_eq!(item.server, Some(A));
    let item = GetUserFromNameTask("steve".to_string()).run(&c).unwrap();
    assert_eq!(item.id, STEVE);
    assert_eq!(GetUsersTask.run(&c).len(), 1);
    let e = GetUserTask(7).run(&c).unwrap_err();
    assert_eq!(e.message, "User not found");
    UserDisconnectedTask(server_auth(), STEVE).run(&mut c).unwrap();
    assert_eq!(UserCountTask.run(&c), 0);
}

#[test]
fn server_listing_tasks() {
    let c = controller_with_server();
    let s = GetServerTask(A).run(&c).unwrap();
    assert_eq!(s.name, "lobby-1");
    assert_eq!(s.node, "node");
    assert_eq!(s.group, None);
    assert_eq!(GetServerFromNameTask("lobby-1".to_string()).run(&c).unwrap().id, A);
    let e = GetServerFromNameTask("nope".to_string()).run(&c).unwrap_err();
    assert_eq!(e.message, "Server not found");
    assert_eq!(GetServersTask.run(&c).len(), 1);
}

#[test]
fn group_tasks() {
    let mut c = controller_with_server();
    let task = CreateGroupTask(
        "lobby".to_string(),
        ScalingPolicy { minimum: 1, maximum: 3, priority: 0 },
        ScalingRule::default(),
        Resources::default(),
        deployment(),
        vec!["node".to_string()],
    );
    task.run(&mut c).unwrap();
    let again = CreateGroupTask(
        "lobby".to_string(),
        ScalingPolicy { minimum: 1, maximum: 3, priority: 0 },
        ScalingRule::default(),
        Resources::default(),
        deployment(),
        vec!["node".to_string()],
    );
    let e = again.run(&mut c).unwrap_err();
    assert_eq!(e.code, Code::AlreadyExists);
    assert_eq!(e.message, "Resource already exists");
    let none = CreateGroupTask(
        "empty".to_string(),
        ScalingPolicy { minimum: 1, maximum: 3, priority: 0 },
        ScalingRule::default(),
        Resources::default(),
        deployment(),
        vec![],
    );
    let e = none.run(&mut c).unwrap_err();
    assert_eq!(e.code, Code::Internal);
    assert_eq!(e.message, "Error: No nodes provided");
    assert_eq!(GetGroupTask("lobby".to_string()).run(&c).unwrap().name, "lobby");
    assert_eq!(GetGroupTask("x".to_string()).run(&c).unwrap_err().message, "Group not found");
    assert_eq!(GetGroupsTask.run(&c).len(), 1);
}

fn spec_request(retention: Option<i32>, fallback: Option<i32>) -> DeploymentRequest {
    DeploymentRequest {
        image: "img".to_string(),
        max_players: 20,
        settings: vec![],
        environment: vec![],
        retention,
        fallback,
    }
}

#[test]
fn deployment_requests() {
    let d = deployment_from_request(spec_request(None, None)).unwrap();
    assert_eq!(d.disk_retention, Retention::Temporary);
    assert_eq!(d.fallback, FallbackPolicy { enabled: false, priority: 0 });
    let d = deployment_from_request(spec_request(Some(1), Some(4))).unwrap();
    assert_eq!(d.disk_retention, Retention::Permanent);
    assert_eq!(d.fallback, FallbackPolicy { enabled: true, priority: 4 });
    let d = deployment_from_request(spec_request(Some(0), None)).unwrap();
    assert_eq!(d.disk_retention, Retention::Temporary);
    let e = deployment_from_request(spec_request(Some(7), None)).unwrap_err();
    assert_eq!(e.code, Code::InvalidArgument);
    assert_eq!(e.message, "Invalid disk retention provided");
}

#[test]
fn create_group_requests_name_the_missing_part() {
    let scaling = Some(ScalingPolicy { minimum: 1, maximum: 2, priority: 0 });
    let r = ManageServiceImpl.create_group("g".to_string(), None, Some(ScalingRule { enabled: false, start_threshold: 0.5f32.to_bits(), stop_empty: true }), Some(Resources::default()), Some(spec_request(None, None)), vec![]);
    assert_eq!(r.unwrap_err().message, "No constraints provided");
    let r = ManageServiceImpl.create_group("g".to_string(), scaling, None, Some(Resources::default()), Some(spec_request(None, None)), vec![]);
    assert_eq!(r.unwrap_err().message, "No scaling policy provided");
    let r = ManageServiceImpl.create_group("g".to_string(), scaling, Some(ScalingRule { enabled: false, start_threshold: 0.5f32.to_bits(), stop_empty: true }), None, Some(spec_request(None, None)), vec![]);
    assert_eq!(r.unwrap_err().message, "No resources provided");
    let r = ManageServiceImpl.create_group("g".to_string(), scaling, Some(ScalingRule { enabled: false, start_threshold: 0.5f32.to_bits(), stop_empty: true }), Some(Resources::default()), None, vec![]);
    assert_eq!(r.unwrap_err().message, "No specification provided");
    let r = ManageServiceImpl.create_group("g".to_string(), scaling, Some(ScalingRule { enabled: false, start_threshold: 0.5f32.to_bits(), stop_empty: true }), Some(Resources::default()), Some(spec_request(Some(7), None)), vec![]);
    assert_eq!(r.unwrap_err().message, "Invalid disk retention provided");
    let t = ManageServiceImpl.create_group("g".to_string(), scaling, Some(ScalingRule { enabled: false, start_threshold: 0.5f32.to_bits(), stop_empty: true }), Some(Resources::default()), Some(spec_request(None, Some(2))), vec!["n".to_string()]).unwrap();
    assert_eq!(t.0, "g");
    assert_eq!(t.2, ScalingRule { enabled: false, start_threshold: 0.5f32.to_bits(), stop_empty: true });
    assert_eq!(t.4.fallback, FallbackPolicy { enabled: true, priority: 2 });
    assert_eq!(t.4.max_players, 20);
    assert_eq!(t.5, vec!["n".to_string()]);
}

#[test]
fn update_and_schedule_requests() {
    let t = ManageServiceImpl.update_group("g".to_string(), None, None, None, None, Some(vec!["n".to_string()])).unwrap();
    assert!(t.2.is_none());
    assert!(t.4.is_none());
    assert_eq!(t.5, Some(vec!["n".to_string()]));
    let v = ScalingValue { start_threshold: 0.75f32.to_bits(), stop_empty: false };
    let t = ManageServiceImpl.update_group("g".to_string(), None, Some(v), None, None, None).unwrap();
    assert_eq!(t.2, Some(ScalingRule { enabled: true, start_threshold: 0.75f32.to_bits(), stop_empty: false }));
    let e = ManageServiceImpl.update_group("g".to_string(), None, None, None, Some(spec_request(Some(7), None)), None).unwrap_err();
    assert_eq!(e.message, "Invalid disk retention provided");
    let e = ManageServiceImpl.schedule_server(1, "s".to_string(), "n".to_string(), None, None).unwrap_err();
    assert_eq!(e.message, "No resources provided");
    let e = ManageServiceImpl.schedule_server(1, "s".to_string(), "n".to_string(), Some(Resources::default()), None).unwrap_err();
    assert_eq!(e.message, "No spec provided");
    let task = ManageServiceImpl.schedule_server(7, "s".to_string(), "n".to_string(), Some(Resources::default()), Some(spec_request(None, None))).unwrap();
    let mut c = controller_with_server();
    let id = task.run(&mut c);
    assert_eq!(id, 0);
    let queued = &c.servers.get_start_requests()[0];
    assert_eq!(queued.name, "s");
    assert_eq!(queued.nodes, vec!["n".to_string()]);
    assert_eq!(queued.priority, 7);
}

#[test]
fn transfer_requests_name_their_target() {
    let auth = || Authorization::User("admin".to_string());
    let e = ManageServiceImpl.transfer_users(auth(), vec![], None).unwrap_err();
    assert_eq!(e.message, "Missing target");
    let t = TargetRequest { kind: None, target: None };
    assert_eq!(ManageServiceImpl.transfer_users(auth(), vec![], Some(t)).unwrap_err().message, "Invalid target type provided");
    let t = TargetRequest { kind: Some(TargetType::Fallback), target: Some("x".to_string()) };
    assert_eq!(ManageServiceImpl.transfer_users(auth(), vec![], Some(t)).unwrap_err().message, "Invalid target type combination");
    let t = TargetRequest { kind: Some(TargetType::Server), target: Some("nope".to_string()) };
    assert_eq!(ManageServiceImpl.transfer_users(auth(), vec![], Some(t)).unwrap_err().message, "Invalid UUID provided");
    let t = TargetRequest { kind: Some(TargetType::Group), target: Some("lobby".to_string()) };
    assert_eq!(ManageServiceImpl.transfer_users(auth(), vec!["bad".to_string()], Some(t)).unwrap_err().message, "Invalid UUID provided");
    let t = TargetRequest { kind: Some(TargetType::Server), target: Some(uuid::Uuid::from_u128(A).to_string()) };
    let task = ManageServiceImpl.transfer_users(auth(), vec![uuid::Uuid::from_u128(STEVE).to_string()], Some(t)).unwrap();
    assert_eq!(task.1, vec![STEVE]);
    assert!(matches!(task.2, TransferTarget::Server(u) if u == A));
    let t = TargetRequest { kind: Some(TargetType::Fallback), target: None };
    let task = ManageServiceImpl.transfer_users(auth(), vec![], Some(t)).unwrap();
    assert!(matches!(task.2, TransferTarget::Fallback));
}

#[test]
fn auth_loads_users_and_makes_an_admin_when_none() {
    let (auth, admin) = Auth::load_all(vec![]);
    let admin = admin.unwrap();
    assert_eq!(admin.username, "admin");
    assert!(admin.token.starts_with("actl_"));
    assert_eq!(auth.get_user(&admin.token).unwrap().username, "admin");
    let stored = vec![
        ("Alice".to_string(), StoredUser { token: "t1".to_string() }),
        ("alice".to_string(), StoredUser { token: "t2".to_string() }),
        ("bob".to_string(), StoredUser { token: "t1".to_string() }),
    ];
    let (auth, admin) = Auth::load_all(stored);
    assert!(admin.is_none());
    assert!(auth.get_user("t2").is_none());
    assert_eq!(auth.get_user("t1").unwrap().username, "bob");
    assert!(auth.has_user_named("BOB"));
    assert!(!auth.has_user_named("alice"));
}

#[test]
fn servers_get_fresh_tokens_and_lose_them() {
    let mut auth = Auth::empty();
    let t1 = auth.register_server(A);
    let t2 = auth.register_server(A);
    assert_ne!(t1, t2);
    assert_eq!(auth.get_server(&t1).unwrap().server, A);
    auth.unregister_server(A);
    assert!(auth.get_server(&t1).is_none());
    assert!(auth.get_server(&t2).is_none());
}

#[test]
fn channels_reach_their_subscribers() {
    let c = controller_with_server();
    let mut channels = Channels::new();
    channels.subscribe_to_channel("chat", ChannelSubscriber::new(A, 1));
    channels.subscribe_to_channel("chat", ChannelSubscriber::new(99, 2));
    channels.subscribe_to_channel("news", ChannelSubscriber::new(A, 3));
    assert_eq!(channels.broadcast_to_channel("chat"), vec![1, 2]);
    assert_eq!(channels.broadcast_to_channel("none"), Vec::<u64>::new());
    channels.unsubscribe_from_channel("chat", A, &c.servers);
    assert_eq!(channels.broadcast_to_channel("chat"), Vec::<u64>::new());
    assert_eq!(channels.broadcast_to_channel("news"), vec![3]);
    channels.cleanup_subscribers(A, &c.servers);
    assert_eq!(channels.broadcast_to_channel("news"), Vec::<u64>::new());
}

#[test]
fn event_bus_counts_and_cleans_up() {
    let c = controller_with_server();
    let mut bus = EventBus::new();
    let a = bus.register_listener(EventKey::Custom(4));
    let b = bus.register_listener_with_server(EventKey::Custom(4), A);
    let g = bus.register_listener_with_server(EventKey::Custom(4), 1234);
    assert_eq!(bus.post(&EventKey::Custom(4)), vec![a, b, g]);
    bus.cleanup_server(A, &c.servers);
    assert_eq!(bus.post(&EventKey::Custom(4)), vec![a]);
    assert_eq!(bus.post_channel_message("chat"), Vec::<u64>::new());
}

#[test]
fn groups_load_only_on_loaded_nodes() {
    let stored = |nodes: Vec<&str>| StoredGroup {
        nodes: nodes.into_iter().map(|n| n.to_string()).collect(),
        scaling: ScalingPolicy { minimum: 0, maximum: 1, priority: 0 },
        rule: ScalingRule::default(),
        resources: Resources::default(),
        deployment: deployment(),
    };
    let loaded = vec!["alpha".to_string()];
    let groups = Groups::load_all(
        vec![
            ("lobby".to_string(), stored(vec!["alpha", "beta"])),
            ("arena".to_string(), stored(vec!["beta"])),
        ],
        &loaded,
    );
    assert_eq!(groups.get_amount(), 1);
    let lobby = groups.find_by_name("lobby").unwrap();
    assert_eq!(lobby.nodes, vec!["alpha".to_string()]);
    assert!(groups.find_by_name("arena").is_none());
    assert!(lobby.get_members().is_empty());
    assert!(lobby.get_free_server().is_none());
    let _ = GroupedServer::Queueing(1);
}

#[test]
fn later_loadable_group_wins() {
    let stored = |nodes: Vec<&str>, maximum: u32| StoredGroup {
        nodes: nodes.into_iter().map(|n| n.to_string()).collect(),
        scaling: ScalingPolicy { minimum: 0, maximum, priority: 0 },
        rule: ScalingRule::default(),
        resources: Resources::default(),
        deployment: deployment(),
    };
    let loaded = vec!["alpha".to_string()];
    let groups = Groups::load_all(
        vec![
            ("lobby".to_string(), stored(vec!["alpha"], 1)),
            ("lobby".to_string(), stored(vec!["alpha"], 2)),
            ("lobby".to_string(), stored(vec!["beta"], 3)),
        ],
        &loaded,
    );
    assert_eq!(groups.get_amount(), 1);
    assert_eq!(groups.find_by_name("lobby").unwrap().get_scaling().maximum, 2);
}

#[test]
fn update_group_task_replaces_given_parts() {
    let mut c = controller_with_server();
    CreateGroupTask(
        "lobby".to_string(),
        ScalingPolicy { minimum: 1, maximum: 3, priority: 0 },
        ScalingRule::default(),
        Resources::default(),
        deployment(),
        vec!["node".to_string()],
    )
    .run(&mut c)
    .unwrap();
    let rule = ScalingRule { enabled: true, start_threshold: 0.8f32.to_bits(), stop_empty: true };
    let task = UpdateGroupTask(
        "lobby".to_string(),
        Some(ScalingPolicy { minimum: 2, maximum: 4, priority: 1 }),
        Some(rule),
        None,
        None,
        Some(vec!["other".to_string()]),
    );
    task.run(&mut c).unwrap();
    let g = c.groups.find_by_name("lobby").unwrap();
    assert_eq!(g.get_scaling(), ScalingPolicy { minimum: 2, maximum: 4, priority: 1 });
    assert_eq!(g.rule, rule);
    assert_eq!(g.get_nodes(), &vec!["other".to_string()]);
    assert_eq!(g.get_deployment().image, "img");
    let e = UpdateGroupTask("hub".to_string(), None, None, None, None, None).run(&mut c).unwrap_err();
    assert_eq!((e.code, e.message.as_str()), (Code::NotFound, "Group not found"));
}

#[test]
fn two_group_ticks_queue_lobby_1_and_lobby_2() {
    let mut groups = Groups::new();
    groups.create_group(
        "lobby",
        vec!["node".to_string()],
        ScalingPolicy { minimum: 2, maximum: 10, priority: 0 },
        ScalingRule::default(),
        Resources::default(),
        deployment(),
    );
    let mut servers = atomic_controller::server::Servers::new();
    groups.tick(&mut servers);
    groups.tick(&mut servers);
    let q = servers.get_start_requests();
    assert_eq!(q.len(), 2);
    assert_eq!(q[0].name, "lobby-1");
    assert_eq!(q[1].name, "lobby-2");
    assert_eq!(groups.find_by_name("lobby").unwrap().get_members().len(), 2);
}

#[test]
fn a_server_may_ask_to_move_users_too() {
    let auth = Authorization::Server(NameAndUuid::new("lobby-1".to_string(), A));
    let t = TargetRequest { kind: Some(TargetType::Group), target: Some("lobby".to_string()) };
    let task = atomic_controller::request::ClientServiceImpl
        .transfer_users(auth, vec![uuid::Uuid::from_u128(STEVE).to_string()], Some(t))
        .unwrap();
    assert_eq!(task.1, vec![STEVE]);
    assert!(matches!(task.2, TransferTarget::Group(ref g) if g == "lobby"));
    let e = atomic_controller::request::ClientServiceImpl
        .transfer_users(Authorization::User("x".to_string()), vec![], None)
        .unwrap_err();
    assert_eq!(e.message, "Missing target");
}

#[test]
fn group_detail_shows_everything() {
    let mut c = controller_with_server();
    let rule = ScalingRule { enabled: true, start_threshold: 0.6f32.to_bits(), stop_empty: true };
    CreateGroupTask(
        "lobby".to_string(),
        ScalingPolicy { minimum: 1, maximum: 3, priority: 2 },
        rule,
        Resources::default(),
        deployment(),
        vec!["node".to_string()],
    )
    .run(&mut c)
    .unwrap();
    let d = atomic_controller::task::GetGroupDetailTask("lobby".to_string()).run(&c).unwrap();
    assert_eq!(d.name, "lobby");
    assert_eq!(d.nodes, vec!["node".to_string()]);
    assert_eq!(d.scaling, atomic_controller::group::Scaling { enabled: true, start_threshold: 0.6f32.to_bits(), stop_empty: true });
    assert_eq!(d.constraints, ScalingPolicy { minimum: 1, maximum: 3, priority: 2 });
    assert_eq!(d.specification.image, "img");
    let e = atomic_controller::task::GetGroupDetailTask("x".to_string()).run(&c).unwrap_err();
    assert_eq!(e.message, "Group not found");
}
