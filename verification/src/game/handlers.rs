//! The command handlers the router dispatches to, and the error taxonomy
//! shared by the whole core.
use vstd::prelude::*;

use super::{
    client_of, has_id, id_index, id_pred, key_index, lemma_id_index_stable, upd_client,
    ClientView, JoinedRoom, JoinedRoomView, RegView, Registry, Room, RoomConfig,
};
use crate::wire::lemma_find_first_characterizes;
use crate::codec::{decode_room_config, spec_decode_config};
use crate::wire::{lemma_views_of, views_of, ValueView, WireValue};

verus! {

/// Everything that can go wrong while routing one inbound message. Any of
/// these is fatal to the sending connection; the transport layer tears the
/// session down when it sees one.
#[derive(Debug, PartialEq, Eq)]
pub enum MessageHandleError {
    /// Malformed envelope, unknown command name, or a payload that does not
    /// parse. The string carries a diagnostic reason.
    InvalidMessageFormat(String),
    /// A command other than a heartbeat or the auth command arrived before
    /// the session presented a key.
    Unauthorized,
    /// Delivery to some outbound channel failed, or the command names a
    /// reserved handler that this core does not implement.
    ServerError(String),
    /// The caller's own state forbids the command, such as creating a room
    /// while already in one.
    ClientError(String),
    /// Reserved for room-state violations; no implemented handler raises it.
    GameStateError(String),
}

/// The variant of an error, with its diagnostic text abstracted away.
/// Contracts pin errors down to this kind; the reason strings are free.
pub enum ErrorKind {
    InvalidMessageFormat,
    Unauthorized,
    ServerError,
    ClientError,
    GameStateError,
}

/// The kind of a concrete error value.
pub open spec fn kind_of(e: MessageHandleError) -> ErrorKind {
    match e {
        MessageHandleError::InvalidMessageFormat(_) => ErrorKind::InvalidMessageFormat,
        MessageHandleError::Unauthorized => ErrorKind::Unauthorized,
        MessageHandleError::ServerError(_) => ErrorKind::ServerError,
        MessageHandleError::ClientError(_) => ErrorKind::ClientError,
        MessageHandleError::GameStateError(_) => ErrorKind::GameStateError,
    }
}

/// A router result with its error abstracted to a kind.
pub open spec fn result_kind(r: Result<(), MessageHandleError>) -> Result<(), ErrorKind> {
    match r {
        Ok(u) => Ok(u),
        Err(e) => Err(kind_of(e)),
    }
}

/// A handler result: the response view on success, the error kind otherwise.
pub open spec fn resp_kind(r: Result<WireValue, MessageHandleError>) -> Result<
    ValueView,
    ErrorKind,
> {
    match r {
        Ok(v) => Ok(v@),
        Err(e) => Err(kind_of(e)),
    }
}

/// A well-formed auth message: exactly `["server","cmd",[key, version]]`,
/// the key and the protocol version both strings. The version is accepted
/// and ignored.
pub open spec fn key_args_ok(args: Seq<ValueView>) -> bool {
    &&& args.len() == 3
    &&& args[2] matches ValueView::List(kv) && kv.len() == 2 && kv[0] is Text && kv[1] is Text
}

/// The room key carried by a well-formed auth message.
pub open spec fn key_arg(args: Seq<ValueView>) -> Seq<char> {
    args[2]->List_0[0]->Text_0
}

/// What the auth command does: on the documented shape it stores the key on
/// the caller's session and succeeds silently; on any other shape it fails
/// and changes nothing. The key is never validated against anything.
pub open spec fn key_spec(reg: RegView, id: Seq<char>, args: Seq<ValueView>) -> (
    RegView,
    Result<(), ErrorKind>,
) {
    if key_args_ok(args) {
        (
            upd_client(
                reg,
                id_index(reg, id)->Some_0,
                ClientView { key: key_arg(args), ..client_of(reg, id) },
            ),
            Ok(()),
        )
    } else {
        (reg, Err(ErrorKind::InvalidMessageFormat))
    }
}

/// A well-formed create message: tag, command name, two routing slots, then
/// key, nickname and avatar as strings, then an optional configuration
/// (null or a decodable object) and an optional mode (null or a string).
pub open spec fn create_args_ok(args: Seq<ValueView>) -> bool {
    &&& (args.len() == 7 || args.len() == 8 || args.len() == 9)
    &&& args[2] is Text
    &&& args[3] is Text
    &&& args[4] is Text
    &&& args[5] is Text
    &&& args[6] is Text
    &&& (args.len() >= 8 ==> (args[7] is Null || spec_decode_config(args[7]) is Some))
    &&& (args.len() == 9 ==> (args[8] is Null || args[8] is Text))
}

/// The configuration carried by a well-formed create message: none when the
/// slot is missing or null.
pub open spec fn create_config(args: Seq<ValueView>) -> Option<RoomConfig> {
    if args.len() >= 8 {
        spec_decode_config(args[7])
    } else {
        None
    }
}

/// The acknowledgement of a create, echoing the caller's own session key.
pub open spec fn createroom_resp(key: Seq<char>) -> ValueView {
    ValueView::List(seq![ValueView::Text("createroom"@), ValueView::Text(key)])
}

/// What `create` does: it succeeds exactly when the caller has no room, and
/// then updates the caller's nickname and avatar, makes the caller the owner
/// of a fresh room with the carried configuration, and acknowledges with
/// the caller's key. A caller already in a room is refused with a client
/// error and nothing changes.
pub open spec fn create_spec(reg: RegView, id: Seq<char>, args: Seq<ValueView>) -> (
    RegView,
    Result<ValueView, ErrorKind>,
) {
    if !create_args_ok(args) {
        (reg, Err(ErrorKind::InvalidMessageFormat))
    } else {
        let c = client_of(reg, id);
        if c.room is NoRoom {
            let c2 = ClientView {
                nickname: args[5]->Text_0,
                avatar: args[6]->Text_0,
                room: JoinedRoomView::Owner(Room { config: create_config(args) }),
                ..c
            };
            (upd_client(reg, id_index(reg, id)->Some_0, c2), Ok(createroom_resp(c.key)))
        } else {
            (reg, Err(ErrorKind::ClientError))
        }
    }
}

/// A well-formed enter message: tag, command name, two routing slots, then
/// key, nickname and avatar as strings.
pub open spec fn enter_args_ok(args: Seq<ValueView>) -> bool {
    &&& args.len() == 7
    &&& args[2] is Text
    &&& args[3] is Text
    &&& args[4] is Text
    &&& args[5] is Text
    &&& args[6] is Text
}

/// The negative result of an enter. The success path deliberately answers
/// with the same literal, preserving wire compatibility.
pub open spec fn enter_failed_resp() -> ValueView {
    ValueView::List(seq![ValueView::Text("enterroomfailed"@)])
}

/// What a room owner hears when a guest joins.
pub open spec fn onconnection_msg(id: Seq<char>) -> ValueView {
    ValueView::List(seq![ValueView::Text("onconnection"@), ValueView::Text(id)])
}

/// Whether a session's room state admits a new guest: it owns a configured
/// room whose game has not started, or observes with observers ready.
pub open spec fn joinable(room: JoinedRoomView) -> bool {
    room matches JoinedRoomView::Owner(r) && r.config matches Some(cfg) && (!cfg.game_started || (
    cfg.observe && cfg.observe_ready))
}

/// What `enter` does. The registry is scanned in insertion order for the
/// first session whose key matches; when none matches, or the match is not
/// a joinable owner, the caller gets the negative response and nothing
/// changes. Against a joinable owner with an open channel, exactly one
/// `onconnection` is delivered to that owner and the caller becomes its
/// guest; with the owner's channel closed, the delivery failure is a server
/// error and the caller's state stays untouched.
pub open spec fn enter_spec(reg: RegView, id: Seq<char>, args: Seq<ValueView>) -> (
    RegView,
    Result<ValueView, ErrorKind>,
) {
    if !enter_args_ok(args) {
        (reg, Err(ErrorKind::InvalidMessageFormat))
    } else {
        match key_index(reg, args[4]->Text_0) {
            None => (reg, Ok(enter_failed_resp())),
            Some(oi) => if joinable(reg[oi].1.room) {
                if reg[oi].1.open {
                    let owner_id = reg[oi].0;
                    let reg1 = upd_client(
                        reg,
                        oi,
                        ClientView {
                            outbox: reg[oi].1.outbox.push(onconnection_msg(id)),
                            ..reg[oi].1
                        },
                    );
                    let ci = id_index(reg, id)->Some_0;
                    let reg2 = upd_client(
                        reg1,
                        ci,
                        ClientView { room: JoinedRoomView::Guest(owner_id), ..reg1[ci].1 },
                    );
                    (reg2, Ok(enter_failed_resp()))
                } else {
                    (reg, Err(ErrorKind::ServerError))
                }
            } else {
                (reg, Ok(enter_failed_resp()))
            },
        }
    }
}

/// Handle the auth command: `["server","cmd",[key, version]]` stores the
/// key on the caller's session; the version is accepted and ignored, and no
/// response is sent. Any other shape is a format error.
pub fn key(reg: &mut Registry, id: &str, args: Vec<WireValue>) -> (r: Result<
    (),
    MessageHandleError,
>)
    requires
        old(reg).wf(),
        has_id(old(reg)@, id@),
    ensures
        final(reg).wf(),
        (final(reg)@, result_kind(r)) == key_spec(old(reg)@, id@, views_of(args@)),
{
    proof {
        lemma_views_of(args@);
    }
    let ghost vargs = views_of(args@);
    if args.len() != 3 {
        return Err(MessageHandleError::InvalidMessageFormat("invalid key args".to_owned()));
    }
    let new_key: String = match &args[2] {
        WireValue::List(kv) => {
            proof {
                lemma_views_of(kv@);
            }
            if kv.len() != 2 {
                return Err(
                    MessageHandleError::InvalidMessageFormat("invalid key args".to_owned()),
                );
            }
            let k: String = match &kv[0] {
                WireValue::Text(t) => t.clone(),
                _ => {
                    return Err(
                        MessageHandleError::InvalidMessageFormat("invalid key args".to_owned()),
                    );
                },
            };
            match &kv[1] {
                WireValue::Text(_) => {},
                _ => {
                    return Err(
                        MessageHandleError::InvalidMessageFormat("invalid key args".to_owned()),
                    );
                },
            }
            k
        },
        _ => {
            return Err(MessageHandleError::InvalidMessageFormat("invalid key args".to_owned()));
        },
    };
    proof {
        assert(key_args_ok(vargs));
        assert(key_arg(vargs) == new_key@);
    }
    let ci = match reg.index_of_id(id) {
        Some(i) => i,
        None => {
            proof {
                assert(false);
            }
            return Err(MessageHandleError::Unauthorized);
        },
    };
    let c = &mut reg.clients[ci].1;
    c.key = new_key;
    proof {
        assert(reg@ =~= key_spec(old(reg)@, id@, vargs).0);
        assert forall|x: int, y: int|
            0 <= x < y < reg@.len() implies reg@[x].0 != reg@[y].0 by {
            assert(old(reg)@[x].0 != old(reg)@[y].0);
        }
    }
    Ok(())
}

/// Handle `create`: become the owner of a fresh room. The message carries
/// key, nickname and avatar in its fifth to seventh slots and an optional
/// configuration and mode after them; the key slot is decoded but unused,
/// the acknowledgement echoes the session's own key.
pub fn create(reg: &mut Registry, id: &str, args: Vec<WireValue>) -> (r: Result<
    WireValue,
    MessageHandleError,
>)
    requires
        old(reg).wf(),
        has_id(old(reg)@, id@),
    ensures
        final(reg).wf(),
        (final(reg)@, resp_kind(r)) == create_spec(old(reg)@, id@, views_of(args@)),
{
    proof {
        lemma_views_of(args@);
    }
    let ghost vargs = views_of(args@);
    if args.len() < 7 || args.len() > 9 {
        return Err(MessageHandleError::InvalidMessageFormat("invalid create args".to_owned()));
    }
    match &args[2] {
        WireValue::Text(_) => {},
        _ => {
            return Err(
                MessageHandleError::InvalidMessageFormat("invalid create args".to_owned()),
            );
        },
    }
    match &args[3] {
        WireValue::Text(_) => {},
        _ => {
            return Err(
                MessageHandleError::InvalidMessageFormat("invalid create args".to_owned()),
            );
        },
    }
    match &args[4] {
        WireValue::Text(_) => {},
        _ => {
            return Err(
                MessageHandleError::InvalidMessageFormat("invalid create args".to_owned()),
            );
        },
    }
    let nickname: String = match &args[5] {
        WireValue::Text(t) => t.clone(),
        _ => {
            return Err(
                MessageHandleError::InvalidMessageFormat("invalid create args".to_owned()),
            );
        },
    };
    let avatar: String = match &args[6] {
        WireValue::Text(t) => t.clone(),
        _ => {
            return Err(
                MessageHandleError::InvalidMessageFormat("invalid create args".to_owned()),
            );
        },
    };
    let config: Option<RoomConfig> = if args.len() >= 8 {
        match &args[7] {
            WireValue::Null => None,
            other => match decode_room_config(other) {
                Some(c) => Some(c),
                None => {
                    return Err(
                        MessageHandleError::InvalidMessageFormat(
                            "invalid room config".to_owned(),
                        ),
                    );
                },
            },
        }
    } else {
        None
    };
    if args.len() == 9 {
        match &args[8] {
            WireValue::Null => {},
            WireValue::Text(_) => {},
            _ => {
                return Err(
                    MessageHandleError::InvalidMessageFormat("invalid create args".to_owned()),
                );
            },
        }
    }
    proof {
        assert(create_args_ok(vargs));
        assert(create_config(vargs) == config);
    }
    let ci = match reg.index_of_id(id) {
        Some(i) => i,
        None => {
            proof {
                assert(false);
            }
            return Err(MessageHandleError::Unauthorized);
        },
    };
    let already_in_room = match &reg.clients[ci].1.room {
        JoinedRoom::NoRoom => false,
        _ => true,
    };
    if already_in_room {
        return Err(MessageHandleError::ClientError("is in room".to_owned()));
    }
    let c = &mut reg.clients[ci].1;
    c.nickname = nickname;
    c.avatar = avatar;
    c.room = JoinedRoom::Owner(Room { config });
    let resp_key = c.key.clone();
    let mut items: Vec<WireValue> = Vec::new();
    items.push(WireValue::Text("createroom".to_owned()));
    items.push(WireValue::Text(resp_key));
    let ghost ivs = items@;
    let resp = WireValue::List(items);
    proof {
        lemma_views_of(ivs);
        assert(views_of(ivs) =~= (createroom_resp(client_of(old(reg)@, id@).key))->List_0);
        assert(resp@ == createroom_resp(client_of(old(reg)@, id@).key));
        assert(reg@ =~= create_spec(old(reg)@, id@, vargs).0);
        assert forall|x: int, y: int|
            0 <= x < y < reg@.len() implies reg@[x].0 != reg@[y].0 by {
            assert(old(reg)@[x].0 != old(reg)@[y].0);
        }
    }
    Ok(resp)
}

/// Build the response every enter gets, the success path included.
fn enter_resp() -> (r: WireValue)
    ensures
        r@ == enter_failed_resp(),
{
    let mut items: Vec<WireValue> = Vec::new();
    items.push(WireValue::Text("enterroomfailed".to_owned()));
    let ghost ivs = items@;
    let r = WireValue::List(items);
    proof {
        lemma_views_of(ivs);
        assert(views_of(ivs) =~= (enter_failed_resp())->List_0);
    }
    r
}

/// Handle `enter`: join the room of the first session whose key matches the
/// message's fifth slot. A joinable owner hears `onconnection` with the
/// caller's identifier and the caller becomes its guest; every completed
/// call answers with the same literal, negative outcomes included.
pub fn enter(reg: &mut Registry, id: &str, args: Vec<WireValue>) -> (r: Result<
    WireValue,
    MessageHandleError,
>)
    requires
        old(reg).wf(),
        has_id(old(reg)@, id@),
    ensures
        final(reg).wf(),
        (final(reg)@, resp_kind(r)) == enter_spec(old(reg)@, id@, views_of(args@)),
{
    proof {
        lemma_views_of(args@);
    }
    let ghost vargs = views_of(args@);
    if args.len() != 7 {
        return Err(MessageHandleError::InvalidMessageFormat("invalid enter args".to_owned()));
    }
    match &args[2] {
        WireValue::Text(_) => {},
        _ => {
            return Err(MessageHandleError::InvalidMessageFormat("invalid enter args".to_owned()));
        },
    }
    match &args[3] {
        WireValue::Text(_) => {},
        _ => {
            return Err(MessageHandleError::InvalidMessageFormat("invalid enter args".to_owned()));
        },
    }
    let room_key: String = match &args[4] {
        WireValue::Text(t) => t.clone(),
        _ => {
            return Err(MessageHandleError::InvalidMessageFormat("invalid enter args".to_owned()));
        },
    };
    match &args[5] {
        WireValue::Text(_) => {},
        _ => {
            return Err(MessageHandleError::InvalidMessageFormat("invalid enter args".to_owned()));
        },
    }
    match &args[6] {
        WireValue::Text(_) => {},
        _ => {
            return Err(MessageHandleError::InvalidMessageFormat("invalid enter args".to_owned()));
        },
    }
    proof {
        assert(enter_args_ok(vargs));
        assert(vargs[4]->Text_0 == room_key@);
    }
    let oi = match reg.index_of_key(room_key.as_str()) {
        None => {
            return Ok(enter_resp());
        },
        Some(oi) => oi,
    };
    let is_joinable = {
        let oc = &reg.clients[oi].1;
        match &oc.room {
            JoinedRoom::Owner(room) => match room.config {
                Some(cfg) => !cfg.game_started || (cfg.observe && cfg.observe_ready),
                None => false,
            },
            _ => false,
        }
    };
    if !is_joinable {
        proof {
            assert(!joinable(old(reg)@[oi as int].1.room));
        }
        return Ok(enter_resp());
    }
    if !reg.clients[oi].1.open {
        return Err(MessageHandleError::ServerError("send onconnection fail".to_owned()));
    }
    let owner_id: String = reg.clients[oi].0.clone();
    let mut items: Vec<WireValue> = Vec::new();
    items.push(WireValue::Text("onconnection".to_owned()));
    items.push(WireValue::Text(id.to_owned()));
    let ghost ivs = items@;
    let onconn = WireValue::List(items);
    proof {
        lemma_views_of(ivs);
        assert(views_of(ivs) =~= (onconnection_msg(id@))->List_0);
        assert(onconn@ == onconnection_msg(id@));
    }
    let oc = &mut reg.clients[oi].1;
    oc.outbox.push(onconn);
    proof {
        crate::wire::lemma_views_of_push(old(reg).clients@[oi as int].1.outbox@, onconn);
        assert(reg@ =~= upd_client(
            old(reg)@,
            oi as int,
            ClientView {
                outbox: old(reg)@[oi as int].1.outbox.push(onconnection_msg(id@)),
                ..old(reg)@[oi as int].1
            },
        ));
        super::lemma_id_index_stable(
            old(reg)@,
            oi as int,
            ClientView {
                outbox: old(reg)@[oi as int].1.outbox.push(onconnection_msg(id@)),
                ..old(reg)@[oi as int].1
            },
            id@,
        );
        assert forall|x: int, y: int|
            0 <= x < y < reg@.len() implies reg@[x].0 != reg@[y].0 by {
            assert(old(reg)@[x].0 != old(reg)@[y].0);
        }
    }
    let ghost reg1 = reg@;
    let ci = match reg.index_of_id(id) {
        Some(i) => i,
        None => {
            proof {
                assert(false);
            }
            return Err(MessageHandleError::Unauthorized);
        },
    };
    let cc = &mut reg.clients[ci].1;
    cc.room = JoinedRoom::Guest(owner_id);
    proof {
        assert(reg@ =~= enter_spec(old(reg)@, id@, vargs).0);
        assert forall|x: int, y: int|
            0 <= x < y < reg@.len() implies reg@[x].0 != reg@[y].0 by {
            assert(reg1[x].0 != reg1[y].0);
        }
    }
    Ok(enter_resp())
}

/// Reserved command name with no behaviour in this core: always fails.
#[allow(non_snake_case)]
pub fn changeAvatar(id: &str, args: Vec<WireValue>) -> (r: Result<WireValue, MessageHandleError>)
    ensures
        r matches Err(e) && kind_of(e) is ServerError,
{
    Err(MessageHandleError::ServerError("not implemented".to_owned()))
}

/// Reserved command name with no behaviour in this core: always fails.
pub fn server(id: &str, args: Vec<WireValue>) -> (r: Result<WireValue, MessageHandleError>)
    ensures
        r matches Err(e) && kind_of(e) is ServerError,
{
    Err(MessageHandleError::ServerError("not implemented".to_owned()))
}

/// Reserved command name with no behaviour in this core: always fails.
pub fn events(id: &str, args: Vec<WireValue>) -> (r: Result<WireValue, MessageHandleError>)
    ensures
        r matches Err(e) && kind_of(e) is ServerError,
{
    Err(MessageHandleError::ServerError("not implemented".to_owned()))
}

/// Reserved command name with no behaviour in this core: always fails.
pub fn config(id: &str, args: Vec<WireValue>) -> (r: Result<WireValue, MessageHandleError>)
    ensures
        r matches Err(e) && kind_of(e) is ServerError,
{
    Err(MessageHandleError::ServerError("not implemented".to_owned()))
}

/// Reserved command name with no behaviour in this core: always fails.
pub fn status(id: &str, args: Vec<WireValue>) -> (r: Result<WireValue, MessageHandleError>)
    ensures
        r matches Err(e) && kind_of(e) is ServerError,
{
    Err(MessageHandleError::ServerError("not implemented".to_owned()))
}

/// Reserved command name with no behaviour in this core: always fails.
pub fn send(id: &str, args: Vec<WireValue>) -> (r: Result<WireValue, MessageHandleError>)
    ensures
        r matches Err(e) && kind_of(e) is ServerError,
{
    Err(MessageHandleError::ServerError("not implemented".to_owned()))
}

/// Reserved command name with no behaviour in this core: always fails.
pub fn close(id: &str, args: Vec<WireValue>) -> (r: Result<WireValue, MessageHandleError>)
    ensures
        r matches Err(e) && kind_of(e) is ServerError,
{
    Err(MessageHandleError::ServerError("not implemented".to_owned()))
}

/// `create` succeeds exactly when the caller has no room yet. On success
/// the caller becomes the owner of a room carrying the message's
/// configuration and the response echoes the caller's key; on the
/// already-in-a-room path the call fails with a client error and the whole
/// directory is untouched.
pub proof fn lemma_create_succeeds_iff_no_room(reg: RegView, id: Seq<char>, args: Seq<ValueView>)
    requires
        has_id(reg, id),
        create_args_ok(args),
    ensures
        ({
            let (reg2, r) = create_spec(reg, id, args);
            &&& (r is Ok <==> client_of(reg, id).room is NoRoom)
            &&& r is Ok ==> client_of(reg2, id).room == JoinedRoomView::Owner(
                Room { config: create_config(args) },
            ) && r->Ok_0 == createroom_resp(client_of(reg, id).key)
            &&& !(client_of(reg, id).room is NoRoom) ==> r == Err::<ValueView, ErrorKind>(
                ErrorKind::ClientError,
            ) && reg2 == reg
        }),
{
    lemma_find_first_characterizes(reg, id_pred(id));
    if client_of(reg, id).room is NoRoom {
        let i = id_index(reg, id)->Some_0;
        let c2 = ClientView {
            nickname: args[5]->Text_0,
            avatar: args[6]->Text_0,
            room: JoinedRoomView::Owner(Room { config: create_config(args) }),
            ..client_of(reg, id)
        };
        lemma_id_index_stable(reg, i, c2, id);
    }
}

/// A room with no configuration is never joinable, whatever the rest of its
/// owner's state.
pub proof fn lemma_unconfigured_never_joinable(room: Room)
    requires
        room.config is None,
    ensures
        !joinable(JoinedRoomView::Owner(room)),
{
}

/// A room that crosses the wire with no configuration comes back exactly as
/// it went — still without one — and so can never be entered.
pub proof fn lemma_encoded_unconfigured_room_rejected(room: Room)
    requires
        room.config is None,
    ensures
        crate::codec::spec_decode_room(crate::codec::spec_encode_room(room)) == Some(room),
        !joinable(JoinedRoomView::Owner(room)),
{
    crate::codec::lemma_room_round_trip(room);
}

/// `enter` with a key nobody holds, or whose first holder is not a joinable
/// owner — no room, a room without configuration, or a started game without
/// ready observers — answers `["enterroomfailed"]` and leaves every
/// session, the caller included, exactly as it was.
pub proof fn lemma_enter_rejected(reg: RegView, id: Seq<char>, args: Seq<ValueView>)
    requires
        enter_args_ok(args),
        match key_index(reg, args[4]->Text_0) {
            None => true,
            Some(oi) => !joinable(reg[oi].1.room),
        },
    ensures
        enter_spec(reg, id, args) == (reg, Ok::<ValueView, ErrorKind>(enter_failed_resp())),
{
}

/// `enter` against a joinable owner with an open channel makes the caller
/// that owner's guest and delivers exactly one `onconnection` carrying the
/// caller's identifier to the owner — to nobody else: every other queue,
/// and everything else about every session, stays as it was.
pub proof fn lemma_enter_joins(reg: RegView, id: Seq<char>, args: Seq<ValueView>)
    requires
        has_id(reg, id),
        enter_args_ok(args),
        key_index(reg, args[4]->Text_0) is Some,
        joinable(reg[key_index(reg, args[4]->Text_0)->Some_0].1.room),
        reg[key_index(reg, args[4]->Text_0)->Some_0].1.open,
    ensures
        ({
            let oi = key_index(reg, args[4]->Text_0)->Some_0;
            let ci = id_index(reg, id)->Some_0;
            let (reg2, r) = enter_spec(reg, id, args);
            &&& r == Ok::<ValueView, ErrorKind>(enter_failed_resp())
            &&& reg2.len() == reg.len()
            &&& client_of(reg2, id).room == JoinedRoomView::Guest(reg[oi].0)
            &&& reg2[oi].1.outbox == reg[oi].1.outbox.push(onconnection_msg(id))
            &&& forall|j: int| 0 <= j < reg.len() && j != oi ==> reg2[j].1.outbox == reg[j].1.outbox
            &&& forall|j: int| 0 <= j < reg.len() && j != oi && j != ci ==> reg2[j] == reg[j]
        }),
{
    lemma_find_first_characterizes(reg, id_pred(id));
    lemma_find_first_characterizes(reg, super::key_pred(args[4]->Text_0));
    let oi = key_index(reg, args[4]->Text_0)->Some_0;
    let ci = id_index(reg, id)->Some_0;
    let reg1 = upd_client(
        reg,
        oi,
        ClientView { outbox: reg[oi].1.outbox.push(onconnection_msg(id)), ..reg[oi].1 },
    );
    let reg2 = upd_client(reg1, ci, ClientView { room: JoinedRoomView::Guest(reg[oi].0), ..reg1[ci].1 });
    lemma_id_index_stable(reg, oi, ClientView { outbox: reg[oi].1.outbox.push(onconnection_msg(id)), ..reg[oi].1 }, id);
    lemma_id_index_stable(reg1, ci, ClientView { room: JoinedRoomView::Guest(reg[oi].0), ..reg1[ci].1 }, id);
}

} // verus!