use noname_server::game::handlers::MessageHandleError;
use noname_server::game::{handle_message, JoinedRoom, Registry};
use noname_server::wire::WireValue;
use noname_server::{client_disconnected, client_welcome};

fn t(s: &str) -> WireValue {
    WireValue::Text(s.to_string())
}

fn zero_config() -> WireValue {
    WireValue::Object(vec![
        ("gameStarted".to_string(), WireValue::Bool(false)),
        ("observe".to_string(), WireValue::Bool(false)),
        ("observeReady".to_string(), WireValue::Bool(false)),
    ])
}

fn config(game_started: bool, observe: bool, observe_ready: bool) -> WireValue {
    WireValue::Object(vec![
        ("gameStarted".to_string(), WireValue::Bool(game_started)),
        ("observe".to_string(), WireValue::Bool(observe)),
        ("observeReady".to_string(), WireValue::Bool(observe_ready)),
    ])
}

fn auth_msg(key: &str) -> WireValue {
    WireValue::List(vec![
        t("server"),
        t("cmd"),
        WireValue::List(vec![t(key), t("1.0")]),
    ])
}

fn create_msg(key: &str, nickname: &str, avatar: &str, cfg: WireValue) -> WireValue {
    WireValue::List(vec![
        t("x"),
        t("create"),
        t("_"),
        t("_"),
        t(key),
        t(nickname),
        t(avatar),
        cfg,
        WireValue::Null,
    ])
}

fn enter_msg(key: &str, nickname: &str, avatar: &str) -> WireValue {
    WireValue::List(vec![
        t("x"),
        t("enter"),
        t("_"),
        t("_"),
        t(key),
        t(nickname),
        t(avatar),
    ])
}

#[test]
fn scenario_full_relay() {
    let mut reg = Registry::new();
    reg.register("1000000001".to_string(), true);
    client_welcome(&mut reg, "1000000001").unwrap();
    assert_eq!(
        reg.take_outbox("1000000001"),
        vec![WireValue::List(vec![
            t("roomlist"),
            WireValue::List(vec![]),
            WireValue::List(vec![]),
            WireValue::List(vec![]),
            t("1000000001"),
        ])]
    );

    // A authenticates; the auth command sends no response.
    handle_message(&mut reg, "1000000001", auth_msg("alice123")).unwrap();
    assert_eq!(reg.take_outbox("1000000001"), vec![]);

    // A creates a room and is acknowledged with its own key.
    handle_message(
        &mut reg,
        "1000000001",
        create_msg("alice123", "Alice", "a.png", zero_config()),
    )
    .unwrap();
    assert_eq!(
        reg.take_outbox("1000000001"),
        vec![WireValue::List(vec![t("createroom"), t("alice123")])]
    );

    // B connects, authenticates and enters A's room by key.
    reg.register("1000000002".to_string(), true);
    client_welcome(&mut reg, "1000000002").unwrap();
    reg.take_outbox("1000000002");
    handle_message(&mut reg, "1000000002", auth_msg("bob456")).unwrap();
    handle_message(&mut reg, "1000000002", enter_msg("alice123", "Bob", "b.png")).unwrap();
    assert_eq!(
        reg.take_outbox("1000000001"),
        vec![WireValue::List(vec![t("onconnection"), t("1000000002")])]
    );
    assert_eq!(
        reg.take_outbox("1000000002"),
        vec![WireValue::List(vec![t("enterroomfailed")])]
    );
    assert_eq!(
        reg.get("1000000002").unwrap().room,
        JoinedRoom::Guest("1000000001".to_string())
    );

    // Everything B sends from now on is relayed verbatim to A.
    handle_message(
        &mut reg,
        "1000000002",
        WireValue::List(vec![t("move"), t("foo")]),
    )
    .unwrap();
    assert_eq!(
        reg.take_outbox("1000000001"),
        vec![WireValue::List(vec![
            t("onmessage"),
            t("1000000002"),
            t("move"),
            t("foo"),
        ])]
    );
    assert_eq!(reg.take_outbox("1000000002"), vec![]);
}

#[test]
fn heartbeat_is_noop_in_any_state() {
    let mut reg = Registry::new();
    reg.register("1".to_string(), true);
    // Unauthenticated.
    let r = handle_message(&mut reg, "1", WireValue::List(vec![t("heartbeat")]));
    assert!(r.is_ok());
    assert_eq!(reg.take_outbox("1"), vec![]);
    // Authenticated owner; a longer heartbeat message is still a no-op.
    handle_message(&mut reg, "1", auth_msg("k")).unwrap();
    handle_message(&mut reg, "1", create_msg("k", "n", "a", zero_config())).unwrap();
    reg.take_outbox("1");
    let r = handle_message(
        &mut reg,
        "1",
        WireValue::List(vec![t("heartbeat"), t("extra")]),
    );
    assert!(r.is_ok());
    assert_eq!(reg.take_outbox("1"), vec![]);
    assert!(matches!(reg.get("1").unwrap().room, JoinedRoom::Owner(_)));
}

#[test]
fn commands_before_auth_are_unauthorized() {
    let mut reg = Registry::new();
    reg.register("1".to_string(), true);
    let r = handle_message(
        &mut reg,
        "1",
        create_msg("k", "n", "a", zero_config()),
    );
    assert!(matches!(r, Err(MessageHandleError::Unauthorized)));
    assert_eq!(reg.take_outbox("1"), vec![]);
    assert_eq!(reg.get("1").unwrap().room, JoinedRoom::NoRoom);
    assert_eq!(reg.get("1").unwrap().key, String::new());
}

#[test]
fn auth_prefix_works_before_auth() {
    let mut reg = Registry::new();
    reg.register("1".to_string(), true);
    assert!(handle_message(&mut reg, "1", auth_msg("room1")).is_ok());
    assert_eq!(reg.get("1").unwrap().key, "room1".to_string());
}

#[test]
fn auth_bad_payloads_are_format_errors() {
    let mut reg = Registry::new();
    reg.register("1".to_string(), true);
    // Too short: no payload slot at all.
    let r = handle_message(&mut reg, "1", WireValue::List(vec![t("server"), t("cmd")]));
    assert!(matches!(r, Err(MessageHandleError::InvalidMessageFormat(_))));
    // Payload is not a two-element list of strings.
    let r = handle_message(
        &mut reg,
        "1",
        WireValue::List(vec![t("server"), t("cmd"), WireValue::List(vec![t("k")])]),
    );
    assert!(matches!(r, Err(MessageHandleError::InvalidMessageFormat(_))));
    let r = handle_message(
        &mut reg,
        "1",
        WireValue::List(vec![t("server"), t("cmd"), WireValue::Int(3)]),
    );
    assert!(matches!(r, Err(MessageHandleError::InvalidMessageFormat(_))));
    // None of those set the key.
    assert_eq!(reg.get("1").unwrap().key, String::new());
}

#[test]
fn create_twice_is_client_error() {
    let mut reg = Registry::new();
    reg.register("1".to_string(), true);
    handle_message(&mut reg, "1", auth_msg("k1")).unwrap();
    handle_message(&mut reg, "1", create_msg("k1", "n", "a", zero_config())).unwrap();
    reg.take_outbox("1");
    let r = handle_message(&mut reg, "1", create_msg("k1", "n2", "a2", zero_config()));
    assert!(matches!(r, Err(MessageHandleError::ClientError(_))));
    // Nothing changed and nothing was sent.
    assert_eq!(reg.take_outbox("1"), vec![]);
    assert_eq!(reg.get("1").unwrap().nickname, "n".to_string());
    assert_eq!(reg.get("1").unwrap().avatar, "a".to_string());
}

#[test]
fn create_without_config_slots() {
    // A seven-slot create carries no configuration: the room exists but is
    // not joinable.
    let mut reg = Registry::new();
    reg.register("1".to_string(), true);
    handle_message(&mut reg, "1", auth_msg("k1")).unwrap();
    let msg = WireValue::List(vec![
        t("x"),
        t("create"),
        t("_"),
        t("_"),
        t("k1"),
        t("n"),
        t("a"),
    ]);
    handle_message(&mut reg, "1", msg).unwrap();
    assert_eq!(
        reg.take_outbox("1"),
        vec![WireValue::List(vec![t("createroom"), t("k1")])]
    );

    reg.register("2".to_string(), true);
    handle_message(&mut reg, "2", auth_msg("k2")).unwrap();
    handle_message(&mut reg, "2", enter_msg("k1", "n", "a")).unwrap();
    assert_eq!(
        reg.take_outbox("2"),
        vec![WireValue::List(vec![t("enterroomfailed")])]
    );
    assert_eq!(reg.get("2").unwrap().room, JoinedRoom::NoRoom);
    assert_eq!(reg.take_outbox("1"), vec![]);
}

#[test]
fn create_with_null_config_makes_unjoinable_room() {
    let mut reg = Registry::new();
    reg.register("1".to_string(), true);
    handle_message(&mut reg, "1", auth_msg("k1")).unwrap();
    handle_message(&mut reg, "1", create_msg("k1", "n", "a", WireValue::Null)).unwrap();
    reg.take_outbox("1");

    reg.register("2".to_string(), true);
    handle_message(&mut reg, "2", auth_msg("k2")).unwrap();
    handle_message(&mut reg, "2", enter_msg("k1", "n", "a")).unwrap();
    assert_eq!(
        reg.take_outbox("2"),
        vec![WireValue::List(vec![t("enterroomfailed")])]
    );
    assert_eq!(reg.get("2").unwrap().room, JoinedRoom::NoRoom);
}

#[test]
fn create_with_bad_config_is_format_error() {
    let mut reg = Registry::new();
    reg.register("1".to_string(), true);
    handle_message(&mut reg, "1", auth_msg("k1")).unwrap();
    let bad = WireValue::Object(vec![("gameStarted".to_string(), WireValue::Bool(true))]);
    let r = handle_message(&mut reg, "1", create_msg("k1", "n", "a", bad));
    assert!(matches!(r, Err(MessageHandleError::InvalidMessageFormat(_))));
    assert_eq!(reg.get("1").unwrap().room, JoinedRoom::NoRoom);
}

#[test]
fn enter_unknown_key_fails() {
    let mut reg = Registry::new();
    reg.register("1".to_string(), true);
    handle_message(&mut reg, "1", auth_msg("k1")).unwrap();
    handle_message(&mut reg, "1", enter_msg("nosuch", "n", "a")).unwrap();
    assert_eq!(
        reg.take_outbox("1"),
        vec![WireValue::List(vec![t("enterroomfailed")])]
    );
    assert_eq!(reg.get("1").unwrap().room, JoinedRoom::NoRoom);
}

#[test]
fn enter_started_game_without_observers_fails() {
    let mut reg = Registry::new();
    reg.register("1".to_string(), true);
    handle_message(&mut reg, "1", auth_msg("k1")).unwrap();
    handle_message(
        &mut reg,
        "1",
        create_msg("k1", "n", "a", config(true, true, false)),
    )
    .unwrap();
    reg.take_outbox("1");

    reg.register("2".to_string(), true);
    handle_message(&mut reg, "2", auth_msg("k2")).unwrap();
    handle_message(&mut reg, "2", enter_msg("k1", "n", "a")).unwrap();
    assert_eq!(
        reg.take_outbox("2"),
        vec![WireValue::List(vec![t("enterroomfailed")])]
    );
    assert_eq!(reg.get("2").unwrap().room, JoinedRoom::NoRoom);
    assert_eq!(reg.take_outbox("1"), vec![]);
}

#[test]
fn enter_started_game_with_ready_observers_succeeds() {
    let mut reg = Registry::new();
    reg.register("1".to_string(), true);
    handle_message(&mut reg, "1", auth_msg("k1")).unwrap();
    handle_message(
        &mut reg,
        "1",
        create_msg("k1", "n", "a", config(true, true, true)),
    )
    .unwrap();
    reg.take_outbox("1");

    reg.register("2".to_string(), true);
    handle_message(&mut reg, "2", auth_msg("k2")).unwrap();
    handle_message(&mut reg, "2", enter_msg("k1", "n", "a")).unwrap();
    assert_eq!(
        reg.take_outbox("1"),
        vec![WireValue::List(vec![t("onconnection"), t("2")])]
    );
    assert_eq!(reg.get("2").unwrap().room, JoinedRoom::Guest("1".to_string()));
}

#[test]
fn guest_commands_are_forwarded_not_dispatched() {
    let mut reg = Registry::new();
    reg.register("1".to_string(), true);
    handle_message(&mut reg, "1", auth_msg("k1")).unwrap();
    handle_message(&mut reg, "1", create_msg("k1", "n", "a", zero_config())).unwrap();
    reg.register("2".to_string(), true);
    handle_message(&mut reg, "2", auth_msg("k2")).unwrap();
    handle_message(&mut reg, "2", enter_msg("k1", "n", "a")).unwrap();
    reg.take_outbox("1");
    reg.take_outbox("2");

    // Even a message tagged "create" is forwarded, not handled: the guest
    // stays a guest and no room is created for it.
    handle_message(
        &mut reg,
        "2",
        create_msg("k2", "n2", "a2", zero_config()),
    )
    .unwrap();
    let fwd = reg.take_outbox("1");
    assert_eq!(fwd.len(), 1);
    match &fwd[0] {
        WireValue::List(items) => {
            assert_eq!(items[0], t("onmessage"));
            assert_eq!(items[1], t("2"));
            assert_eq!(items[2], t("x"));
            assert_eq!(items[3], t("create"));
            assert_eq!(items.len(), 11);
        }
        other => panic!("forward was not a list: {:?}", other),
    }
    assert_eq!(reg.take_outbox("2"), vec![]);
    assert_eq!(reg.get("2").unwrap().room, JoinedRoom::Guest("1".to_string()));
}

#[test]
fn orphaned_guest_forward_is_server_error() {
    let mut reg = Registry::new();
    reg.register("1".to_string(), true);
    handle_message(&mut reg, "1", auth_msg("k1")).unwrap();
    handle_message(&mut reg, "1", create_msg("k1", "n", "a", zero_config())).unwrap();
    reg.register("2".to_string(), true);
    handle_message(&mut reg, "2", auth_msg("k2")).unwrap();
    handle_message(&mut reg, "2", enter_msg("k1", "n", "a")).unwrap();

    // The owner disconnects; the guest only finds out on its next send.
    client_disconnected(&mut reg, "1");
    assert!(reg.get("1").is_none());
    let r = handle_message(&mut reg, "2", WireValue::List(vec![t("move")]));
    assert!(matches!(r, Err(MessageHandleError::ServerError(_))));
    assert_eq!(reg.get("2").unwrap().room, JoinedRoom::Guest("1".to_string()));
}

#[test]
fn server_tag_without_cmd_is_format_error() {
    let mut reg = Registry::new();
    reg.register("1".to_string(), true);
    handle_message(&mut reg, "1", auth_msg("k1")).unwrap();
    let r = handle_message(
        &mut reg,
        "1",
        WireValue::List(vec![t("server"), t("other"), t("x")]),
    );
    assert!(matches!(r, Err(MessageHandleError::InvalidMessageFormat(_))));
}

#[test]
fn unknown_command_is_format_error() {
    let mut reg = Registry::new();
    reg.register("1".to_string(), true);
    handle_message(&mut reg, "1", auth_msg("k1")).unwrap();
    let r = handle_message(&mut reg, "1", WireValue::List(vec![t("x"), t("bogus")]));
    assert!(matches!(r, Err(MessageHandleError::InvalidMessageFormat(_))));
    let r = handle_message(&mut reg, "1", WireValue::List(vec![t("x"), WireValue::Int(1)]));
    assert!(matches!(r, Err(MessageHandleError::InvalidMessageFormat(_))));
    let r = handle_message(&mut reg, "1", WireValue::List(vec![t("x")]));
    assert!(matches!(r, Err(MessageHandleError::InvalidMessageFormat(_))));
}

#[test]
fn reserved_commands_fail_as_not_implemented() {
    let mut reg = Registry::new();
    reg.register("1".to_string(), true);
    handle_message(&mut reg, "1", auth_msg("k1")).unwrap();
    for name in [
        "changeAvatar",
        "server",
        "events",
        "config",
        "status",
        "send",
        "close",
    ] {
        let r = handle_message(&mut reg, "1", WireValue::List(vec![t("x"), t(name)]));
        assert!(
            matches!(r, Err(MessageHandleError::ServerError(_))),
            "reserved name {} should fail with a server error",
            name
        );
    }
}

#[test]
fn malformed_envelopes_are_format_errors() {
    let mut reg = Registry::new();
    reg.register("1".to_string(), true);
    for msg in [
        WireValue::Null,
        WireValue::Bool(true),
        WireValue::Int(5),
        WireValue::Text("hello".to_string()),
        WireValue::Object(vec![]),
        WireValue::List(vec![]),
        WireValue::List(vec![WireValue::Int(42)]),
    ] {
        let r = handle_message(&mut reg, "1", msg);
        assert!(matches!(r, Err(MessageHandleError::InvalidMessageFormat(_))));
    }
}

#[test]
fn closed_channel_makes_response_a_server_error() {
    let mut reg = Registry::new();
    reg.register("1".to_string(), false);
    handle_message(&mut reg, "1", auth_msg("k1")).unwrap();
    let r = handle_message(&mut reg, "1", create_msg("k1", "n", "a", zero_config()));
    assert!(matches!(r, Err(MessageHandleError::ServerError(_))));
    // The handler had already run: the caller owns a room even though the
    // acknowledgement could not be delivered.
    assert!(matches!(reg.get("1").unwrap().room, JoinedRoom::Owner(_)));
}

#[test]
fn enter_with_closed_owner_is_server_error() {
    let mut reg = Registry::new();
    reg.register("1".to_string(), false);
    handle_message(&mut reg, "1", auth_msg("k1")).unwrap();
    let _ = handle_message(&mut reg, "1", create_msg("k1", "n", "a", zero_config()));

    reg.register("2".to_string(), true);
    handle_message(&mut reg, "2", auth_msg("k2")).unwrap();
    let r = handle_message(&mut reg, "2", enter_msg("k1", "n", "a"));
    assert!(matches!(r, Err(MessageHandleError::ServerError(_))));
    // The failed notification kept the caller out of the room.
    assert_eq!(reg.get("2").unwrap().room, JoinedRoom::NoRoom);
}

#[test]
fn welcome_to_closed_channel_fails() {
    let mut reg = Registry::new();
    reg.register("1".to_string(), false);
    let r = client_welcome(&mut reg, "1");
    assert!(matches!(r, Err(MessageHandleError::ServerError(_))));
}

#[test]
fn removal_is_idempotent() {
    let mut reg = Registry::new();
    reg.register("1".to_string(), true);
    client_disconnected(&mut reg, "1");
    assert!(reg.get("1").is_none());
    client_disconnected(&mut reg, "1");
    assert!(reg.get("1").is_none());
}

#[test]
fn first_key_match_wins() {
    // Two sessions may share a key; enter resolves to the earlier one.
    let mut reg = Registry::new();
    reg.register("1".to_string(), true);
    handle_message(&mut reg, "1", auth_msg("dup")).unwrap();
    handle_message(&mut reg, "1", create_msg("dup", "n", "a", zero_config())).unwrap();
    reg.register("2".to_string(), true);
    handle_message(&mut reg, "2", auth_msg("dup")).unwrap();
    handle_message(&mut reg, "2", create_msg("dup", "n", "a", zero_config())).unwrap();
    reg.take_outbox("1");
    reg.take_outbox("2");

    reg.register("3".to_string(), true);
    handle_message(&mut reg, "3", auth_msg("k3")).unwrap();
    handle_message(&mut reg, "3", enter_msg("dup", "n", "a")).unwrap();
    assert_eq!(reg.get("3").unwrap().room, JoinedRoom::Guest("1".to_string()));
    assert_eq!(
        reg.take_outbox("1"),
        vec![WireValue::List(vec![t("onconnection"), t("3")])]
    );
    assert_eq!(reg.take_outbox("2"), vec![]);
}

#[test]
fn client_send_and_fresh_state() {
    let mut c = noname_server::game::Client::new(true);
    assert_eq!(c.key, String::new());
    assert_eq!(c.room, JoinedRoom::NoRoom);
    assert!(c.send(t("hello")).is_ok());
    assert_eq!(c.outbox, vec![t("hello")]);

    let mut closed = noname_server::game::Client::new(false);
    assert!(closed.send(t("hello")).is_err());
    assert_eq!(closed.outbox, vec![]);
}

#[test]
fn room_resolves_through_registry() {
    let mut reg = Registry::new();
    reg.register("1".to_string(), true);
    handle_message(&mut reg, "1", auth_msg("k1")).unwrap();
    handle_message(&mut reg, "1", create_msg("k1", "n", "a", zero_config())).unwrap();
    reg.register("2".to_string(), true);
    handle_message(&mut reg, "2", auth_msg("k2")).unwrap();
    handle_message(&mut reg, "2", enter_msg("k1", "n", "a")).unwrap();

    // The owner sees its own room; the guest resolves the owner's room.
    let owner_room = reg.get("1").unwrap().room(&reg).unwrap();
    assert!(owner_room.config.is_some());
    let guest_room = reg.get("2").unwrap().room(&reg).unwrap();
    assert_eq!(guest_room.config, owner_room.config);

    // An orphaned guest resolves to no room at all.
    let snapshot = {
        let c = reg.get("2").unwrap();
        noname_server::game::Client {
            key: c.key.clone(),
            nickname: c.nickname.clone(),
            avatar: c.avatar.clone(),
            status: c.status.clone(),
            room: JoinedRoom::Guest("1".to_string()),
            outbox: vec![],
            open: true,
        }
    };
    client_disconnected(&mut reg, "1");
    assert!(snapshot.room(&reg).is_none());
}

#[test]
fn take_outbox_of_unknown_id_is_empty() {
    let mut reg = Registry::new();
    assert_eq!(reg.take_outbox("missing"), vec![]);
}

#[test]
fn guest_can_still_reach_the_auth_command() {
    // The auth prefix is routed before the guest short circuit, so even a
    // guest can change its key; the message is not forwarded.
    let mut reg = Registry::new();
    reg.register("1".to_string(), true);
    handle_message(&mut reg, "1", auth_msg("k1")).unwrap();
    handle_message(&mut reg, "1", create_msg("k1", "n", "a", zero_config())).unwrap();
    reg.register("2".to_string(), true);
    handle_message(&mut reg, "2", auth_msg("k2")).unwrap();
    handle_message(&mut reg, "2", enter_msg("k1", "n", "a")).unwrap();
    reg.take_outbox("1");
    reg.take_outbox("2");

    handle_message(&mut reg, "2", auth_msg("k9")).unwrap();
    assert_eq!(reg.get("2").unwrap().key, "k9".to_string());
    assert_eq!(reg.take_outbox("1"), vec![]);
    assert_eq!(reg.take_outbox("2"), vec![]);
}

#[test]
fn owner_entering_its_own_key_becomes_its_own_guest() {
    // The key scan takes the first match, the caller itself included: the
    // owner hears its own onconnection and drops to guest of itself.
    let mut reg = Registry::new();
    reg.register("1".to_string(), true);
    handle_message(&mut reg, "1", auth_msg("k1")).unwrap();
    handle_message(&mut reg, "1", create_msg("k1", "n", "a", zero_config())).unwrap();
    reg.take_outbox("1");

    handle_message(&mut reg, "1", enter_msg("k1", "n", "a")).unwrap();
    assert_eq!(
        reg.take_outbox("1"),
        vec![
            WireValue::List(vec![t("onconnection"), t("1")]),
            WireValue::List(vec![t("enterroomfailed")]),
        ]
    );
    assert_eq!(reg.get("1").unwrap().room, JoinedRoom::Guest("1".to_string()));
}
