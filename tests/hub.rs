use realtime_hub::access::{
    grouping_policies, AccessLevel, Action, CollabMemberRow, ObjectType, PolicyStore, Role,
    WorkspaceMemberRow,
};
use realtime_hub::broadcast::{CollabBroadcast, CollabMessage, CollabOrigin, MessageKind, Outbound, Received, Subscriber};
use realtime_hub::cache::{CollabGroupCache, MAX_EVICTIONS_PER_TICK};
use realtime_hub::codec::{decode_chunks, encode_chunks, DecodeError};
use realtime_hub::group::{timeout_secs, CollabGroup, CollabType, FlushError, UpdateError};
use realtime_hub::logging::setup_log;
use realtime_hub::middleware::{
    authorize_parsed, authorize_request, method_to_action, parse_workspace_param, required_checks, AccessError,
    AccessResource, HttpMethod,
};

fn origin(uid: i64, device: &str) -> CollabOrigin {
    CollabOrigin { uid, device_id: device.to_string() }
}

fn collab_row(uid: i64, oid: &str, level: AccessLevel) -> CollabMemberRow {
    CollabMemberRow { uid, oid: oid.to_string(), access_level: level }
}

fn store_with(rows: Vec<CollabMemberRow>) -> PolicyStore {
    PolicyStore::load(&vec![], &rows)
}

fn collab(oid: &str) -> ObjectType {
    ObjectType::Collab(oid.to_string())
}

#[test]
fn access_levels_imply_their_actions() {
    let store = store_with(vec![
        collab_row(1, "o", AccessLevel::ReadOnly),
        collab_row(2, "o", AccessLevel::ReadAndComment),
        collab_row(3, "o", AccessLevel::ReadAndWrite),
        collab_row(4, "o", AccessLevel::FullAccess),
    ]);
    let expect = [
        (1, [true, false, false]),
        (2, [true, false, false]),
        (3, [true, true, false]),
        (4, [true, true, true]),
    ];
    for (uid, allowed) in expect {
        assert_eq!(store.check(uid, &collab("o"), Action::Read), allowed[0]);
        assert_eq!(store.check(uid, &collab("o"), Action::Write), allowed[1]);
        assert_eq!(store.check(uid, &collab("o"), Action::Delete), allowed[2]);
    }
    assert!(!store.check(5, &collab("o"), Action::Read));
    assert!(!store.check(4, &collab("other"), Action::Read));
}

#[test]
fn workspace_roles_imply_their_actions() {
    let ws = vec![
        WorkspaceMemberRow { uid: 1, workspace_id: 7, role: Role::Owner },
        WorkspaceMemberRow { uid: 2, workspace_id: 7, role: Role::Member },
        WorkspaceMemberRow { uid: 3, workspace_id: 7, role: Role::Guest },
    ];
    let store = PolicyStore::load(&ws, &vec![]);
    let w = ObjectType::Workspace(7);
    assert!(store.check(1, &w, Action::Delete));
    assert!(store.check(2, &w, Action::Write));
    assert!(!store.check(2, &w, Action::Delete));
    assert!(store.check(3, &w, Action::Read));
    assert!(!store.check(3, &w, Action::Write));
    assert!(!store.check(1, &ObjectType::Workspace(8), Action::Read));
    assert!(!store.check(1, &ObjectType::Collab("7".to_string()), Action::Read));
}

#[test]
fn grouping_rules_list_each_level() {
    let rules = grouping_policies();
    assert_eq!(
        rules,
        vec![
            (AccessLevel::ReadOnly, Action::Read),
            (AccessLevel::ReadAndComment, Action::Read),
            (AccessLevel::ReadAndWrite, Action::Read),
            (AccessLevel::ReadAndWrite, Action::Write),
            (AccessLevel::FullAccess, Action::Read),
            (AccessLevel::FullAccess, Action::Write),
            (AccessLevel::FullAccess, Action::Delete),
        ]
    );
}

#[test]
fn empty_store_allows_nothing() {
    let store = PolicyStore::new();
    assert!(!store.check(1, &collab("o"), Action::Read));
}

#[test]
fn codec_round_trip() {
    let chunks = vec![vec![], vec![1u8, 2, 3], vec![255u8; 300]];
    let bytes = encode_chunks(&chunks);
    assert_eq!(&bytes[0..4], &[0, 0, 0, 0]);
    assert_eq!(&bytes[4..8], &[3, 0, 0, 0]);
    assert_eq!(&bytes[11..15], &[44, 1, 0, 0]);
    assert_eq!(bytes.len(), 4 + 4 + 3 + 4 + 300);
    assert_eq!(decode_chunks(&bytes), Ok(chunks));
}

#[test]
fn codec_empty_and_truncated() {
    assert_eq!(encode_chunks(&vec![]), Vec::<u8>::new());
    assert_eq!(decode_chunks(&vec![]), Ok(vec![]));
    assert_eq!(decode_chunks(&vec![1, 0]), Err(DecodeError::Truncated));
    assert_eq!(decode_chunks(&vec![5, 0, 0, 0, 1, 2]), Err(DecodeError::Truncated));
}

#[test]
fn timeout_table() {
    assert_eq!(timeout_secs(CollabType::Document, false), 600);
    assert_eq!(timeout_secs(CollabType::Database, false), 3600);
    assert_eq!(timeout_secs(CollabType::DatabaseRow, false), 3600);
    assert_eq!(timeout_secs(CollabType::WorkspaceDatabase, false), 7200);
    assert_eq!(timeout_secs(CollabType::Folder, false), 7200);
    assert_eq!(timeout_secs(CollabType::UserAwareness, false), 7200);
    assert_eq!(timeout_secs(CollabType::Folder, true), 120);
}

#[test]
fn broadcast_drops_oldest() {
    let mut b = CollabBroadcast::new(2);
    for i in 0..3u8 {
        b.send(CollabMessage { origin: origin(1, "d"), kind: MessageKind::Update, payload: vec![i] });
    }
    assert_eq!(b.next_seq(), 3);
    match b.recv(0) {
        Received::Lagged { resume } => assert_eq!(resume, 1),
        other => panic!("unexpected {:?}", other),
    }
    match b.recv(2) {
        Received::Message { seq, message } => {
            assert_eq!(seq, 2);
            assert_eq!(message.payload, vec![2]);
        },
        other => panic!("unexpected {:?}", other),
    }
    assert!(matches!(b.recv(3), Received::Empty));
}

#[test]
fn outbound_skips_own_messages() {
    let mut b = CollabBroadcast::new(10);
    b.send(CollabMessage { origin: origin(1, "a"), kind: MessageKind::Update, payload: vec![1] });
    b.send(CollabMessage { origin: origin(2, "b"), kind: MessageKind::Update, payload: vec![2] });
    let mut sub = Subscriber { origin: origin(1, "a"), cursor: 0 };
    match b.next_for(&mut sub) {
        Outbound::Deliver { seq, message } => {
            assert_eq!(seq, 1);
            assert_eq!(message.payload, vec![2]);
        },
        other => panic!("unexpected {:?}", other),
    }
    assert_eq!(sub.cursor, 2);
    assert!(matches!(b.next_for(&mut sub), Outbound::Idle));
}

fn hub_with(rows: Vec<CollabMemberRow>) -> (CollabGroupCache, PolicyStore) {
    (CollabGroupCache::new(true), store_with(rows))
}

#[test]
fn two_client_convergence() {
    let (mut cache, store) = hub_with(vec![
        collab_row(1, "o1", AccessLevel::ReadAndWrite),
        collab_row(2, "o1", AccessLevel::ReadAndWrite),
    ]);
    assert_eq!(cache.create_group_if_need(1, "w", "o1", CollabType::Document, None, 0), Ok(true));
    let a = origin(1, "a");
    let b = origin(2, "b");
    assert!(cache.subscribe("o1", a.copy()).unwrap().is_none());
    assert!(cache.subscribe("o1", b.copy()).unwrap().is_none());
    assert_eq!(cache.apply_update("o1", &store, &a, b"{\"k\":\"v\"}".to_vec(), 1), Ok(0));
    assert_eq!(cache.apply_update("o1", &store, &b, b"{\"k2\":\"v2\"}".to_vec(), 1), Ok(1));
    match cache.next_for("o1", &a) {
        Some(Outbound::Deliver { message, .. }) => assert_eq!(message.payload, b"{\"k2\":\"v2\"}".to_vec()),
        other => panic!("unexpected {:?}", other),
    }
    match cache.next_for("o1", &b) {
        Some(Outbound::Deliver { message, .. }) => assert_eq!(message.payload, b"{\"k\":\"v\"}".to_vec()),
        other => panic!("unexpected {:?}", other),
    }
    let state = decode_chunks(&cache.get_group("o1").unwrap().encode_v1()).unwrap();
    assert_eq!(state, vec![vec![], b"{\"k\":\"v\"}".to_vec(), b"{\"k2\":\"v2\"}".to_vec()]);
}

#[test]
fn one_group_per_object() {
    let (mut cache, _store) = hub_with(vec![]);
    assert_eq!(cache.create_group_if_need(1, "w", "o", CollabType::Document, None, 0), Ok(true));
    assert_eq!(cache.create_group_if_need(2, "w", "o", CollabType::Folder, None, 5), Ok(false));
    assert_eq!(cache.number_of_groups(), 1);
    assert!(cache.contains_group("o"));
    assert!(!cache.contains_group("p"));
}

#[test]
fn reaper_eviction_and_reload() {
    let (mut cache, store) = hub_with(vec![collab_row(1, "o2", AccessLevel::ReadAndWrite)]);
    let stored = encode_chunks(&vec![vec![9u8, 9]]);
    assert_eq!(cache.create_group_if_need(1, "w", "o2", CollabType::Document, Some(&stored), 1000), Ok(true));
    assert!(cache.tick(1120, &store).is_empty());
    let evicted = cache.tick(1121, &store);
    assert_eq!(evicted.len(), 1);
    assert_eq!(evicted[0].object_id, "o2");
    assert!(!cache.contains_group("o2"));
    let bytes = evicted[0].doc_state.clone().unwrap();
    assert_eq!(bytes, stored);
    assert_eq!(cache.create_group_if_need(1, "w", "o2", CollabType::Document, Some(&bytes), 2000), Ok(true));
    assert_eq!(cache.get_group("o2").unwrap().encode_v1(), stored);
}

#[test]
fn tick_evicts_at_most_five() {
    let (mut cache, store) = hub_with(vec![]);
    let ids = ["a", "b", "c", "d", "e", "f", "g"];
    for id in ids {
        assert_eq!(cache.create_group_if_need(1, "w", id, CollabType::Document, None, 0), Ok(true));
    }
    let first = cache.tick(1000, &store);
    assert_eq!(first.len(), MAX_EVICTIONS_PER_TICK);
    assert_eq!(first.iter().map(|e| e.object_id.clone()).collect::<Vec<_>>(), vec!["a", "b", "c", "d", "e"]);
    assert_eq!(first[0].doc_state, Err(FlushError::PermissionRevoked));
    assert_eq!(cache.number_of_groups(), 2);
    assert_eq!(cache.tick(1000, &store).len(), 2);
    assert_eq!(cache.number_of_groups(), 0);
}

#[test]
fn permission_revocation() {
    let (mut cache, mut store) = hub_with(vec![collab_row(7, "o3", AccessLevel::ReadAndWrite)]);
    let u = origin(7, "d");
    assert_eq!(cache.create_group_if_need(7, "w", "o3", CollabType::Document, None, 0), Ok(true));
    assert_eq!(cache.apply_update("o3", &store, &u, vec![1], 1), Ok(0));
    store.reload(&vec![], &vec![collab_row(7, "o3", AccessLevel::ReadOnly)]);
    assert_eq!(cache.apply_update("o3", &store, &u, vec![2], 2), Err(UpdateError::PermissionDenied));
    assert_eq!(cache.apply_awareness("o3", &store, &u, vec![3]), Ok(1));
    assert!(store.check(7, &collab("o3"), Action::Read));
    assert_eq!(cache.flush_group("o3", &store), Some(Err(FlushError::PermissionRevoked)));
    assert_eq!(cache.get_group("o3").unwrap().pending_bytes(), 1);
}

#[test]
fn update_errors() {
    let (mut cache, store) = hub_with(vec![collab_row(1, "o", AccessLevel::FullAccess)]);
    let u = origin(1, "d");
    assert_eq!(cache.apply_update("missing", &store, &u, vec![1], 0), Err(UpdateError::GroupNotFound));
    assert_eq!(cache.create_group_if_need(1, "w", "o", CollabType::Document, None, 0), Ok(true));
    assert_eq!(cache.apply_update("o", &store, &origin(2, "x"), vec![1], 0), Err(UpdateError::PermissionDenied));
}

#[test]
fn disconnect_and_reconnect() {
    let (mut cache, store) = hub_with(vec![
        collab_row(1, "o4", AccessLevel::ReadAndWrite),
        collab_row(3, "o4", AccessLevel::ReadAndWrite),
    ]);
    let c = origin(3, "c");
    assert_eq!(cache.create_group_if_need(1, "w", "o4", CollabType::Document, None, 0), Ok(true));
    cache.subscribe("o4", c.copy()).unwrap();
    assert_eq!(cache.apply_update("o4", &store, &c, vec![1], 1), Ok(0));
    assert!(cache.remove_user("o4", &c).is_some());
    assert!(!cache.contains_user("o4", &c));
    assert_eq!(cache.apply_update("o4", &store, &origin(1, "a"), vec![2], 2), Ok(1));
    cache.subscribe("o4", c.copy()).unwrap();
    assert!(cache.contains_user("o4", &c));
    let server = cache.get_group("o4").unwrap().encode_v1();
    assert_eq!(decode_chunks(&server).unwrap(), vec![vec![], vec![1], vec![2]]);
}

#[test]
fn resubscribe_replaces_prior() {
    let (mut cache, _store) = hub_with(vec![]);
    assert_eq!(cache.create_group_if_need(1, "w", "o", CollabType::Document, None, 0), Ok(true));
    assert!(cache.subscribe("o", origin(1, "a")).unwrap().is_none());
    let prior = cache.subscribe("o", origin(1, "a")).unwrap();
    assert_eq!(prior.unwrap().origin.device_id, "a");
    assert!(!cache.get_group("o").unwrap().is_empty());
    assert_eq!(cache.subscribe("none", origin(1, "a")).err(), Some(UpdateError::GroupNotFound));
}

#[test]
fn slow_subscriber_resyncs() {
    let (mut cache, store) = hub_with(vec![collab_row(1, "o5", AccessLevel::ReadAndWrite)]);
    let a = origin(1, "a");
    let d = origin(4, "d");
    assert_eq!(cache.create_group_if_need(1, "w", "o5", CollabType::Document, None, 0), Ok(true));
    cache.subscribe("o5", d.copy()).unwrap();
    for i in 0..12u64 {
        assert_eq!(cache.apply_update("o5", &store, &a, vec![i as u8], i), Ok(i));
    }
    match cache.next_for("o5", &d) {
        Some(Outbound::Resync { resume }) => assert_eq!(resume, 2),
        other => panic!("unexpected {:?}", other),
    }
    match cache.next_for("o5", &d) {
        Some(Outbound::Deliver { seq, message }) => {
            assert_eq!(seq, 2);
            assert_eq!(message.payload, vec![2]);
        },
        other => panic!("unexpected {:?}", other),
    }
}

#[test]
fn flush_on_eviction() {
    let (mut cache, store) = hub_with(vec![collab_row(1, "o6", AccessLevel::ReadAndWrite)]);
    let a = origin(1, "a");
    assert_eq!(cache.create_group_if_need(1, "w", "o6", CollabType::Document, None, 0), Ok(true));
    cache.subscribe("o6", a.copy()).unwrap();
    assert_eq!(cache.apply_update("o6", &store, &a, vec![5, 6], 10), Ok(0));
    let expected = cache.get_group("o6").unwrap().encode_v1();
    let group = cache.get_group("o6").unwrap();
    assert!(!group.is_inactive(130));
    assert!(group.is_inactive(131));
    assert_eq!(group.pending_bytes(), 2);
    assert!(group.should_flush(1));
    assert!(!group.should_flush(2));
    assert_eq!(cache.flush_group("o6", &store), Some(Ok(expected.clone())));
    assert_eq!(cache.get_group("o6").unwrap().pending_bytes(), 0);
    assert_eq!(cache.flush_group("o6", &store), Some(Ok(expected.clone())));
    assert_eq!(cache.flush_group("none", &store), None);
    let evicted = cache.remove_group("o6", &store).unwrap();
    assert_eq!(evicted.doc_state, Ok(expected));
    assert_eq!(evicted.subscribers.len(), 1);
    assert!(cache.remove_group("o6", &store).is_none());
}

#[test]
fn modified_at_only_moves_forward() {
    let store = store_with(vec![collab_row(1, "o", AccessLevel::ReadAndWrite)]);
    let mut g = CollabGroup::new("o", "w", 1, CollabType::Document, None, 100, true).unwrap();
    let a = origin(1, "a");
    assert_eq!(g.apply_update(&store, &a, vec![1], 50), Ok(0));
    assert_eq!(g.modified_at(), 100);
    assert_eq!(g.apply_update(&store, &a, vec![2], 150), Ok(1));
    assert_eq!(g.modified_at(), 150);
    assert_eq!(g.owner_uid(), 1);
    assert_eq!(g.workspace_id(), "w");
    assert_eq!(g.object_id(), "o");
    assert_eq!(g.collab_type(), CollabType::Document);
    assert!(!g.is_inactive(270));
    assert!(g.is_inactive(271));
    assert_eq!(g.apply_awareness(&store, &a, vec![9]), Ok(2));
    assert!(g.is_inactive(271));
    assert_eq!(g.modified_at(), 150);
}

#[test]
fn corrupt_storage_is_reported() {
    assert_eq!(
        CollabGroup::new("o", "w", 1, CollabType::Document, Some(&vec![9, 9]), 0, false).err(),
        Some(DecodeError::Truncated)
    );
    let (mut cache, _store) = hub_with(vec![]);
    assert_eq!(
        cache.create_group_if_need(1, "w", "o", CollabType::Document, Some(&vec![5, 0, 0, 0, 1]), 0),
        Err(DecodeError::Truncated)
    );
    assert!(!cache.contains_group("o"));
    assert_eq!(cache.number_of_groups(), 0);
    assert_eq!(cache.create_group_if_need(1, "w", "o", CollabType::Document, Some(&vec![]), 0), Ok(true));
    assert_eq!(cache.get_group("o").unwrap().encode_v1(), vec![0, 0, 0, 0]);
    assert_eq!(cache.create_group_if_need(1, "w", "o", CollabType::Document, Some(&vec![9]), 0), Ok(false));
}

#[test]
fn method_mapping() {
    assert_eq!(method_to_action(HttpMethod::Get), Action::Read);
    assert_eq!(method_to_action(HttpMethod::Head), Action::Read);
    assert_eq!(method_to_action(HttpMethod::Put), Action::Write);
    assert_eq!(method_to_action(HttpMethod::Post), Action::Write);
    assert_eq!(method_to_action(HttpMethod::Patch), Action::Write);
    assert_eq!(method_to_action(HttpMethod::Delete), Action::Delete);
}

const WS: &str = "550e8400-e29b-41d4-a716-446655440000";
const WS_NUM: u128 = 0x550e8400e29b41d4a716446655440000;

#[test]
fn workspace_param_parses_as_uuid() {
    assert_eq!(parse_workspace_param(Some(WS)), Some(Some(WS_NUM)));
    assert_eq!(parse_workspace_param(Some("not-a-uuid")), Some(None));
    assert_eq!(parse_workspace_param(None), None);
    assert_eq!(required_checks(None, None, HttpMethod::Get).len(), 0);
    let checks = required_checks(Some(WS_NUM), Some("o"), HttpMethod::Delete);
    assert_eq!(checks.len(), 2);
    assert_eq!(checks[0].resource, AccessResource::Workspace);
    assert_eq!(checks[1].resource, AccessResource::Collab);
    assert_eq!(checks[1].action, Action::Delete);
}

#[test]
fn workspace_param_that_is_no_uuid_is_refused() {
    let store = PolicyStore::load(
        &vec![WorkspaceMemberRow { uid: 1, workspace_id: WS_NUM, role: Role::Owner }],
        &vec![collab_row(1, "o", AccessLevel::FullAccess)],
    );
    assert_eq!(
        authorize_request(&store, Some(1), Some("not-a-uuid"), None, HttpMethod::Get),
        Err(AccessError::Forbidden(AccessResource::Workspace))
    );
    assert_eq!(
        authorize_request(&store, Some(1), Some("not-a-uuid"), Some("o"), HttpMethod::Get),
        Err(AccessError::Forbidden(AccessResource::Workspace))
    );
    assert_eq!(
        authorize_request(&store, None, Some("not-a-uuid"), None, HttpMethod::Get),
        Err(AccessError::UnknownUser)
    );
    assert_eq!(
        authorize_parsed(&store, Some(1), Some(None), None, HttpMethod::Get),
        Err(AccessError::Forbidden(AccessResource::Workspace))
    );
    assert_eq!(authorize_parsed(&store, Some(1), Some(Some(WS_NUM)), Some("o"), HttpMethod::Delete), Ok(()));
    assert_eq!(authorize_parsed(&store, None, None, None, HttpMethod::Delete), Ok(()));
}

#[test]
fn request_authorization() {
    let store = PolicyStore::load(
        &vec![WorkspaceMemberRow { uid: 1, workspace_id: WS_NUM, role: Role::Member }],
        &vec![collab_row(1, "o", AccessLevel::ReadOnly)],
    );
    assert_eq!(authorize_request(&store, None, None, None, HttpMethod::Delete), Ok(()));
    assert_eq!(authorize_request(&store, None, Some(WS), None, HttpMethod::Get), Err(AccessError::UnknownUser));
    assert_eq!(authorize_request(&store, Some(1), Some(WS), Some("o"), HttpMethod::Get), Ok(()));
    assert_eq!(
        authorize_request(&store, Some(1), Some(WS), Some("o"), HttpMethod::Post),
        Err(AccessError::Forbidden(AccessResource::Collab))
    );
    assert_eq!(
        authorize_request(&store, Some(1), Some(WS), None, HttpMethod::Delete),
        Err(AccessError::Forbidden(AccessResource::Workspace))
    );
    assert_eq!(
        authorize_request(&store, Some(2), None, Some("o"), HttpMethod::Get),
        Err(AccessError::Forbidden(AccessResource::Collab))
    );
}

#[test]
fn log_filter_directive() {
    assert_eq!(setup_log(), "client_api=info");
}

#[test]
fn release_timeouts_apply_per_type() {
    let g = CollabGroup::new("db", "w", 1, CollabType::Database, None, 0, false).unwrap();
    assert!(!g.is_inactive(3600));
    assert!(g.is_inactive(3601));
    assert!(!g.is_inactive(0));
}

#[test]
fn new_subscriber_reads_from_next_message() {
    let (mut cache, store) = hub_with(vec![collab_row(1, "o", AccessLevel::ReadAndWrite)]);
    let a = origin(1, "a");
    let late = origin(2, "late");
    assert_eq!(cache.create_group_if_need(1, "w", "o", CollabType::Document, None, 0), Ok(true));
    for i in 0..3u64 {
        assert_eq!(cache.apply_update("o", &store, &a, vec![i as u8], i), Ok(i));
    }
    cache.subscribe("o", late.copy()).unwrap();
    assert!(matches!(cache.next_for("o", &late), Some(Outbound::Idle)));
    assert_eq!(cache.apply_update("o", &store, &a, vec![7], 4), Ok(3));
    match cache.next_for("o", &late) {
        Some(Outbound::Deliver { seq, message }) => {
            assert_eq!(seq, 3);
            assert_eq!(message.payload, vec![7]);
        },
        other => panic!("unexpected {:?}", other),
    }
}

#[test]
fn removing_a_user_keeps_the_others_reading() {
    let (mut cache, store) = hub_with(vec![collab_row(1, "o", AccessLevel::ReadAndWrite)]);
    let a = origin(1, "a");
    let b = origin(2, "b");
    let c = origin(3, "c");
    assert_eq!(cache.create_group_if_need(1, "w", "o", CollabType::Document, None, 0), Ok(true));
    cache.subscribe("o", b.copy()).unwrap();
    cache.subscribe("o", c.copy()).unwrap();
    assert_eq!(cache.apply_update("o", &store, &a, vec![1], 1), Ok(0));
    assert!(cache.remove_user("o", &origin(9, "none")).is_none());
    assert!(cache.remove_user("o", &c).is_some());
    assert!(cache.contains_group("o"));
    match cache.next_for("o", &b) {
        Some(Outbound::Deliver { seq, .. }) => assert_eq!(seq, 0),
        other => panic!("unexpected {:?}", other),
    }
    assert!(cache.next_for("o", &c).is_none());
}
