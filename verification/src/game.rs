//! The session registry and the room-ownership model: one `Client` per
//! connected party, a directory keyed by connection identifier, and the
//! per-session room state machine (no room / guest of an owner / owner).
pub mod handlers;

use vstd::prelude::*;

use crate::wire::{
    find_first, lemma_find_first_characterizes, lemma_find_first_complete, lemma_views_of,
    str_eq, views_of, ValueView, WireValue,
};
pub use handlers::MessageHandleError;
use handlers::ErrorKind;

verus! {

/// Settings a room owner supplies when creating a room. A room whose game
/// has started only admits new guests when it both allows observers and has
/// them ready.
#[derive(Debug, PartialEq, Eq, Clone, Copy)]
pub struct RoomConfig {
    pub game_started: bool,
    pub observe: bool,
    pub observe_ready: bool,
}

/// The joinable unit an owner session carries. A room without a
/// configuration is not discoverable: entering it always fails.
#[derive(Debug, PartialEq, Eq, Clone, Copy)]
pub struct Room {
    pub config: Option<RoomConfig>,
}

/// A session's room relationship: at most one at a time. A guest holds the
/// owner's connection identifier, never a live reference; if the owner is
/// gone the reference just stops resolving.
#[derive(Debug, PartialEq, Eq)]
pub enum JoinedRoom {
    NoRoom,
    Guest(String),
    Owner(Room),
}

/// One connected party. The outbound channel is modelled as a queue of
/// pending wire values plus a liveness flag: a send to an open channel
/// enqueues and never blocks, a send to a closed one fails.
pub struct Client {
    /// Set once by the auth command; doubles as the room's public key.
    pub key: String,
    pub nickname: String,
    pub avatar: String,
    pub status: String,
    pub room: JoinedRoom,
    /// Messages delivered to this party and not yet drained by transport.
    pub outbox: Vec<WireValue>,
    /// Whether the party can still receive; a delivery to a closed channel
    /// is a failure.
    pub open: bool,
}

/// The room state of a session, abstracted.
#[verifier::ext_equal]
pub enum JoinedRoomView {
    NoRoom,
    Guest(Seq<char>),
    Owner(Room),
}

impl View for JoinedRoom {
    type V = JoinedRoomView;

    open spec fn view(&self) -> JoinedRoomView {
        match self {
            JoinedRoom::NoRoom => JoinedRoomView::NoRoom,
            JoinedRoom::Guest(owner) => JoinedRoomView::Guest(owner@),
            JoinedRoom::Owner(room) => JoinedRoomView::Owner(*room),
        }
    }
}

/// A session, abstracted: strings become character sequences and the
/// outbound queue becomes the sequence of views of its pending messages.
#[verifier::ext_equal]
pub struct ClientView {
    pub key: Seq<char>,
    pub nickname: Seq<char>,
    pub avatar: Seq<char>,
    pub status: Seq<char>,
    pub room: JoinedRoomView,
    pub outbox: Seq<ValueView>,
    pub open: bool,
}

impl View for Client {
    type V = ClientView;

    open spec fn view(&self) -> ClientView {
        ClientView {
            key: self.key@,
            nickname: self.nickname@,
            avatar: self.avatar@,
            status: self.status@,
            room: self.room@,
            outbox: views_of(self.outbox@),
            open: self.open,
        }
    }
}

/// The whole directory, abstracted: identifier and session, in insertion
/// order. Lookups by room key take the first match in this order.
pub type RegView = Seq<(Seq<char>, ClientView)>;

/// A freshly registered session: no key, no names, no room, empty queue.
pub open spec fn fresh_client(open: bool) -> ClientView {
    ClientView {
        key: Seq::empty(),
        nickname: Seq::empty(),
        avatar: Seq::empty(),
        status: Seq::empty(),
        room: JoinedRoomView::NoRoom,
        outbox: Seq::empty(),
        open: open,
    }
}

/// Holds of a directory entry registered under `id`.
pub open spec fn id_pred(id: Seq<char>) -> spec_fn((Seq<char>, ClientView)) -> bool {
    |e: (Seq<char>, ClientView)| e.0 == id
}

/// Holds of a directory entry whose session key is `key`.
pub open spec fn key_pred(key: Seq<char>) -> spec_fn((Seq<char>, ClientView)) -> bool {
    |e: (Seq<char>, ClientView)| e.1.key == key
}

/// Where `id` sits in the directory, if anywhere.
pub open spec fn id_index(reg: RegView, id: Seq<char>) -> Option<int> {
    find_first(reg, id_pred(id))
}

/// Whether `id` names a registered session.
pub open spec fn has_id(reg: RegView, id: Seq<char>) -> bool {
    id_index(reg, id) is Some
}

/// The session registered under `id`. Meaningful only when `has_id` holds.
pub open spec fn client_of(reg: RegView, id: Seq<char>) -> ClientView {
    reg[id_index(reg, id)->Some_0].1
}

/// The first session, in insertion order, whose key equals `key`.
pub open spec fn key_index(reg: RegView, key: Seq<char>) -> Option<int> {
    find_first(reg, key_pred(key))
}

/// The directory with the session at `i` replaced, its identifier kept.
pub open spec fn upd_client(reg: RegView, i: int, c: ClientView) -> RegView {
    reg.update(i, (reg[i].0, c))
}

/// Identifiers are unique: the directory is a map.
pub open spec fn reg_wf(reg: RegView) -> bool {
    forall|i: int, j: int| 0 <= i < j < reg.len() ==> reg[i].0 != reg[j].0
}

/// Registering replaces a session already under that identifier, and
/// appends a fresh one otherwise.
pub open spec fn register_spec(reg: RegView, id: Seq<char>, open: bool) -> RegView {
    match id_index(reg, id) {
        Some(i) => reg.update(i, (id, fresh_client(open))),
        None => reg.push((id, fresh_client(open))),
    }
}

/// Removal is idempotent and is the sole consequence of a disconnect: no
/// other session's state changes, guests of the removed owner included.
pub open spec fn remove_spec(reg: RegView, id: Seq<char>) -> RegView {
    match id_index(reg, id) {
        Some(i) => reg.remove(i),
        None => reg,
    }
}

/// Replacing a session, identifier kept, moves no lookup: every identifier
/// still resolves to the same slot.
pub proof fn lemma_id_index_stable(reg: RegView, i: int, c: ClientView, id: Seq<char>)
    requires
        0 <= i < reg.len(),
    ensures
        id_index(upd_client(reg, i, c), id) == id_index(reg, id),
{
    let p = id_pred(id);
    let reg2 = upd_client(reg, i, c);
    lemma_find_first_characterizes(reg, p);
    lemma_find_first_characterizes(reg2, p);
    match find_first(reg, p) {
        Some(k) => {
            lemma_find_first_complete(reg2, p, k);
        },
        None => {
            if find_first(reg2, p) is Some {
                let k = find_first(reg2, p)->Some_0;
                assert(p(reg[k]));
            }
        },
    }
}

/// The directory: the single shared map from connection identifier to
/// session, guarded by one lock outside this core. All reads and writes go
/// through it.
pub struct Registry {
    pub clients: Vec<(String, Client)>,
}

impl View for Registry {
    type V = RegView;

    open spec fn view(&self) -> RegView {
        Seq::new(self.clients@.len(), |i: int| (self.clients@[i].0@, self.clients@[i].1@))
    }
}

impl Registry {
    /// Identifiers never repeat.
    pub open spec fn wf(&self) -> bool {
        reg_wf(self@)
    }

    /// An empty directory.
    pub fn new() -> (r: Registry)
        ensures
            r@ =~= Seq::<(Seq<char>, ClientView)>::empty(),
            r.wf(),
    {
        Registry { clients: Vec::new() }
    }

    /// The slot holding `id`, scanning in insertion order.
    fn index_of_id(&self, id: &str) -> (r: Option<usize>)
        ensures
            match r {
                Some(i) => 0 <= i < self@.len() && id_index(self@, id@) == Some(i as int),
                None => id_index(self@, id@) is None,
            },
    {
        let n = self.clients.len();
        let mut i: usize = 0;
        while i < n
            invariant
                0 <= i <= n,
                n == self@.len(),
                forall|j: int| 0 <= j < i ==> self@[j].0 != id@,
            decreases n - i,
        {
            proof {
                assert(self@[i as int] == (self.clients@[i as int].0@, self.clients@[i as int].1@));
            }
            if str_eq(self.clients[i].0.as_str(), id) {
                proof {
                    assert(id_pred(id@)(self@[i as int]));
                    assert forall|j: int| 0 <= j < i implies !id_pred(id@)(self@[j]) by {}
                    lemma_find_first_complete(self@, id_pred(id@), i as int);
                }
                return Some(i);
            }
            i += 1;
        }
        proof {
            lemma_find_first_characterizes(self@, id_pred(id@));
            if id_index(self@, id@) is Some {
                let k = id_index(self@, id@)->Some_0;
                assert(id_pred(id@)(self@[k]));
                assert(false);
            }
        }
        None
    }

    /// The first slot, in insertion order, whose session key equals `key`.
    fn index_of_key(&self, key: &str) -> (r: Option<usize>)
        ensures
            match r {
                Some(i) => 0 <= i < self@.len() && key_index(self@, key@) == Some(i as int),
                None => key_index(self@, key@) is None,
            },
    {
        let n = self.clients.len();
        let mut i: usize = 0;
        while i < n
            invariant
                0 <= i <= n,
                n == self@.len(),
                forall|j: int| 0 <= j < i ==> self@[j].1.key != key@,
            decreases n - i,
        {
            proof {
                assert(self@[i as int] == (self.clients@[i as int].0@, self.clients@[i as int].1@));
            }
            if str_eq(self.clients[i].1.key.as_str(), key) {
                proof {
                    assert(key_pred(key@)(self@[i as int]));
                    assert forall|j: int| 0 <= j < i implies !key_pred(key@)(self@[j]) by {}
                    lemma_find_first_complete(self@, key_pred(key@), i as int);
                }
                return Some(i);
            }
            i += 1;
        }
        proof {
            lemma_find_first_characterizes(self@, key_pred(key@));
            if key_index(self@, key@) is Some {
                let k = key_index(self@, key@)->Some_0;
                assert(key_pred(key@)(self@[k]));
                assert(false);
            }
        }
        None
    }

    /// Insert a fresh session under `id`, replacing any session already
    /// registered under it.
    pub fn register(&mut self, id: String, open: bool)
        requires
            old(self).wf(),
        ensures
            final(self).wf(),
            final(self)@ == register_spec(old(self)@, id@, open),
    {
        let c = Client::new(open);
        match self.index_of_id(id.as_str()) {
            Some(i) => {
                let slot = &mut self.clients[i];
                *slot = (id, c);
                proof {
                    assert(self@ =~= register_spec(old(self)@, id@, open));
                    lemma_find_first_characterizes(old(self)@, id_pred(id@));
                    assert(id_pred(id@)(old(self)@[i as int]));
                    assert forall|x: int, y: int|
                        0 <= x < y < self@.len() implies self@[x].0 != self@[y].0 by {
                        assert(old(self)@[x].0 != old(self)@[y].0);
                    }
                }
            },
            None => {
                self.clients.push((id, c));
                proof {
                    assert(self@ =~= register_spec(old(self)@, id@, open));
                    lemma_find_first_characterizes(old(self)@, id_pred(id@));
                    assert forall|x: int, y: int|
                        0 <= x < y < self@.len() implies self@[x].0 != self@[y].0 by {
                        if y == self@.len() - 1 {
                            assert(!id_pred(id@)(old(self)@[x]));
                        }
                    }
                }
            },
        }
    }

    /// A snapshot of the session under `id`, if it is registered.
    pub fn get(&self, id: &str) -> (r: Option<&Client>)
        ensures
            match r {
                Some(c) => has_id(self@, id@) && c@ == client_of(self@, id@),
                None => !has_id(self@, id@),
            },
    {
        match self.index_of_id(id) {
            Some(i) => Some(&self.clients[i].1),
            None => None,
        }
    }

    /// Drop the session under `id`. Idempotent; this is the whole effect of
    /// a disconnect, so guests referencing the removed owner keep their
    /// stale reference and discover the loss lazily.
    pub fn remove(&mut self, id: &str)
        requires
            old(self).wf(),
        ensures
            final(self).wf(),
            final(self)@ == remove_spec(old(self)@, id@),
    {
        match self.index_of_id(id) {
            Some(i) => {
                self.clients.remove(i);
                proof {
                    assert(self@ =~= remove_spec(old(self)@, id@));
                    assert forall|x: int, y: int|
                        0 <= x < y < self@.len() implies self@[x].0 != self@[y].0 by {
                        let xo: int = if x < i as int {
                            x
                        } else {
                            x + 1
                        };
                        let yo: int = if y < i as int {
                            y
                        } else {
                            y + 1
                        };
                        assert(old(self)@[xo].0 != old(self)@[yo].0);
                    }
                }
            },
            None => {
                proof {
                    assert(self@ =~= remove_spec(old(self)@, id@));
                }
            },
        }
    }

    /// Hand the transport everything queued for `id`, leaving the queue
    /// empty. Unregistered identifiers yield nothing.
    pub fn take_outbox(&mut self, id: &str) -> (msgs: Vec<WireValue>)
        requires
            old(self).wf(),
        ensures
            final(self).wf(),
            match id_index(old(self)@, id@) {
                Some(i) => views_of(msgs@) == old(self)@[i].1.outbox && final(self)@ == upd_client(
                    old(self)@,
                    i,
                    ClientView { outbox: Seq::empty(), ..old(self)@[i].1 },
                ),
                None => msgs@.len() == 0 && final(self)@ == old(self)@,
            },
    {
        match self.index_of_id(id) {
            Some(i) => {
                let slot = &mut self.clients[i].1;
                let mut msgs: Vec<WireValue> = Vec::new();
                core::mem::swap(&mut msgs, &mut slot.outbox);
                proof {
                    let gi = id_index(old(self)@, id@)->Some_0;
                    assert(self@ =~= upd_client(
                        old(self)@,
                        gi,
                        ClientView { outbox: Seq::empty(), ..old(self)@[gi].1 },
                    ));
                    assert forall|x: int, y: int|
                        0 <= x < y < self@.len() implies self@[x].0 != self@[y].0 by {}
                }
                msgs
            },
            None => {
                let msgs: Vec<WireValue> = Vec::new();
                proof {
                    assert(self@ =~= old(self)@);
                }
                msgs
            },
        }
    }
}

/// A send on a closed channel fails with this.
#[derive(Debug, PartialEq, Eq)]
pub struct SendError;

impl Client {
    /// A freshly connected session with no key, no names and no room.
    pub fn new(open: bool) -> (c: Client)
        ensures
            c@ == fresh_client(open),
    {
        let c = Client {
            key: String::new(),
            nickname: String::new(),
            avatar: String::new(),
            status: String::new(),
            room: JoinedRoom::NoRoom,
            outbox: Vec::new(),
            open: open,
        };
        proof {
            assert(c@ =~= fresh_client(open));
        }
        c
    }

    /// Queue one message for this party. Never blocks; fails only when the
    /// channel is closed, and then changes nothing.
    pub fn send(&mut self, msg: WireValue) -> (r: Result<(), SendError>)
        ensures
            old(self).open ==> r is Ok && final(self)@ == (ClientView {
                outbox: old(self)@.outbox.push(msg@),
                ..old(self)@
            }),
            !old(self).open ==> r is Err && final(self)@ == old(self)@,
    {
        if self.open {
            self.outbox.push(msg);
            proof {
                crate::wire::lemma_views_of_push(old(self).outbox@, msg);
                assert(self@ =~= (ClientView { outbox: old(self)@.outbox.push(msg@), ..old(self)@ }));
            }
            Ok(())
        } else {
            Err(SendError)
        }
    }

    /// The caller's current room state.
    pub fn room_state(&self) -> (r: &JoinedRoom)
        ensures
            r == &self.room,
    {
        &self.room
    }
}

/// Append `m` to `target`'s queue. Delivery fails, changing nothing, when
/// the target is not registered or its channel is closed.
pub open spec fn deliver_spec(reg: RegView, target: Seq<char>, m: ValueView) -> (RegView, bool) {
    match id_index(reg, target) {
        Some(i) => if reg[i].1.open {
            (
                upd_client(reg, i, ClientView { outbox: reg[i].1.outbox.push(m), ..reg[i].1 }),
                true,
            )
        } else {
            (reg, false)
        },
        None => (reg, false),
    }
}

/// The guest short circuit: the whole inbound message, tag included, is
/// wrapped as `["onmessage", senderId, ...]` and delivered verbatim to the
/// owner. A failed delivery, the owner being gone included, is a server
/// error and nothing changes; no handler runs and no response goes back.
pub open spec fn forward_spec(
    reg: RegView,
    id: Seq<char>,
    owner: Seq<char>,
    args: Seq<ValueView>,
) -> (RegView, Result<(), ErrorKind>) {
    let fwd = ValueView::List(
        seq![ValueView::Text("onmessage"@), ValueView::Text(id)] + args,
    );
    let d = deliver_spec(reg, owner, fwd);
    if d.1 {
        (d.0, Ok(()))
    } else {
        (reg, Err(ErrorKind::ServerError))
    }
}

/// The reserved command names: protocol surface with no behaviour in this
/// core. Each resolves to a handler that fails with a server error rather
/// than being treated as an unknown name.
pub open spec fn reserved_name(name: Seq<char>) -> bool {
    ||| name == "changeAvatar"@
    ||| name == "server"@
    ||| name == "events"@
    ||| name == "config"@
    ||| name == "status"@
    ||| name == "send"@
    ||| name == "close"@
}

/// Pick the handler named by the message's second slot and run it. An
/// absent or non-string name, and a name outside the fixed table, are
/// format errors.
pub open spec fn dispatch_spec(reg: RegView, id: Seq<char>, args: Seq<ValueView>) -> (
    RegView,
    Result<ValueView, ErrorKind>,
) {
    if !(args.len() >= 2 && args[1] is Text) {
        (reg, Err(ErrorKind::InvalidMessageFormat))
    } else {
        let name = args[1]->Text_0;
        if name == "create"@ {
            handlers::create_spec(reg, id, args)
        } else if name == "enter"@ {
            handlers::enter_spec(reg, id, args)
        } else if reserved_name(name) {
            (reg, Err(ErrorKind::ServerError))
        } else {
            (reg, Err(ErrorKind::InvalidMessageFormat))
        }
    }
}

/// One routing step: everything the core does with one inbound message from
/// the session `id`, which must be registered. In order: a malformed
/// envelope is a format error; a heartbeat is a no-op; the exact
/// `["server","cmd",...]` prefix goes to the auth handler even before
/// authentication and gets no response; any other command requires a
/// non-empty key; a guest's command is forwarded to its owner and nothing
/// else happens; a leftover `"server"` tag is a format error; otherwise the
/// named handler runs and its response is delivered to the sender alone,
/// a failed delivery being a server error that keeps the handler's effect.
pub open spec fn route_spec(reg: RegView, id: Seq<char>, m: ValueView) -> (
    RegView,
    Result<(), ErrorKind>,
) {
    match m {
        ValueView::List(args) => {
            if args.len() == 0 || !(args[0] is Text) {
                (reg, Err(ErrorKind::InvalidMessageFormat))
            } else {
                let tag = args[0]->Text_0;
                if tag == "heartbeat"@ {
                    (reg, Ok(()))
                } else if tag == "server"@ && args.len() >= 2 && args[1] == ValueView::Text(
                    "cmd"@,
                ) {
                    handlers::key_spec(reg, id, args)
                } else {
                    let c = client_of(reg, id);
                    if c.key.len() == 0 {
                        (reg, Err(ErrorKind::Unauthorized))
                    } else {
                        match c.room {
                            JoinedRoomView::Guest(owner) => forward_spec(reg, id, owner, args),
                            _ => if tag == "server"@ {
                                (reg, Err(ErrorKind::InvalidMessageFormat))
                            } else {
                                let d = dispatch_spec(reg, id, args);
                                match d.1 {
                                    Err(k) => (d.0, Err(k)),
                                    Ok(resp) => {
                                        let dd = deliver_spec(d.0, id, resp);
                                        if dd.1 {
                                            (dd.0, Ok(()))
                                        } else {
                                            (dd.0, Err(ErrorKind::ServerError))
                                        }
                                    },
                                }
                            },
                        }
                    }
                }
            }
        },
        _ => (reg, Err(ErrorKind::InvalidMessageFormat)),
    }
}

/// Append `msg` to the queue of the session registered under `target`,
/// reporting whether delivery happened. A missing target or a closed
/// channel fails the delivery and changes nothing.
pub(crate) fn deliver(reg: &mut Registry, target: &str, msg: WireValue) -> (ok: bool)
    requires
        old(reg).wf(),
    ensures
        final(reg).wf(),
        (final(reg)@, ok) == deliver_spec(old(reg)@, target@, msg@),
{
    match reg.index_of_id(target) {
        Some(i) => {
            if reg.clients[i].1.open {
                let c = &mut reg.clients[i].1;
                c.outbox.push(msg);
                proof {
                    crate::wire::lemma_views_of_push(old(reg).clients@[i as int].1.outbox@, msg);
                    assert(reg@ =~= deliver_spec(old(reg)@, target@, msg@).0);
                    assert forall|x: int, y: int|
                        0 <= x < y < reg@.len() implies reg@[x].0 != reg@[y].0 by {
                        assert(old(reg)@[x].0 != old(reg)@[y].0);
                    }
                }
                true
            } else {
                false
            }
        },
        None => false,
    }
}

/// Route one inbound message from the registered session `id` through the
/// whole pipeline: envelope check, heartbeat, auth command, auth gate,
/// guest short circuit, handler dispatch and response delivery. The effect
/// and the outcome are exactly those of `route_spec`.
pub fn handle_message(reg: &mut Registry, id: &str, msg: WireValue) -> (r: Result<
    (),
    MessageHandleError,
>)
    requires
        old(reg).wf(),
        has_id(old(reg)@, id@),
    ensures
        final(reg).wf(),
        (final(reg)@, handlers::result_kind(r)) == route_spec(old(reg)@, id@, msg@),
{
    let ghost mv = msg@;
    let args: Vec<WireValue> = match msg {
        WireValue::List(items) => items,
        _ => {
            return Err(
                MessageHandleError::InvalidMessageFormat("top level list is expected".to_owned()),
            );
        },
    };
    proof {
        lemma_views_of(args@);
    }
    let ghost vargs = views_of(args@);
    if args.len() == 0 {
        return Err(
            MessageHandleError::InvalidMessageFormat("message command is expected".to_owned()),
        );
    }
    let tag: String = match &args[0] {
        WireValue::Text(t) => t.clone(),
        _ => {
            return Err(
                MessageHandleError::InvalidMessageFormat("message command is expected".to_owned()),
            );
        },
    };
    proof {
        assert(vargs[0] == ValueView::Text(tag@));
    }
    if str_eq(tag.as_str(), "heartbeat") {
        return Ok(());
    }
    let second_is_cmd: bool = if args.len() >= 2 {
        match &args[1] {
            WireValue::Text(t) => str_eq(t.as_str(), "cmd"),
            _ => false,
        }
    } else {
        false
    };
    proof {
        assert(second_is_cmd == (vargs.len() >= 2 && vargs[1] == ValueView::Text("cmd"@)));
    }
    if str_eq(tag.as_str(), "server") && second_is_cmd {
        return handlers::key(reg, id, args);
    }
    let ci = match reg.index_of_id(id) {
        Some(i) => i,
        None => {
            proof {
                assert(false);
            }
            return Err(MessageHandleError::Unauthorized);
        },
    };
    proof {
        assert(reg@[ci as int] == (reg.clients@[ci as int].0@, reg.clients@[ci as int].1@));
    }
    if reg.clients[ci].1.key.as_str().is_empty() {
        return Err(MessageHandleError::Unauthorized);
    }
    let guest_owner: Option<String> = match &reg.clients[ci].1.room {
        JoinedRoom::Guest(o) => Some(o.clone()),
        _ => None,
    };
    match guest_owner {
        Some(owner) => {
            let mut items: Vec<WireValue> = Vec::new();
            items.push(WireValue::Text("onmessage".to_owned()));
            items.push(WireValue::Text(id.to_owned()));
            let mut rest = args;
            items.append(&mut rest);
            let ghost ivs = items@;
            let fwd = WireValue::List(items);
            proof {
                lemma_views_of(ivs);
                assert(views_of(ivs) =~= seq![
                    ValueView::Text("onmessage"@),
                    ValueView::Text(id@),
                ] + vargs);
            }
            let ok = deliver(reg, owner.as_str(), fwd);
            if ok {
                return Ok(());
            } else {
                return Err(MessageHandleError::ServerError("send onmessage fail".to_owned()));
            }
        },
        None => {},
    }
    if str_eq(tag.as_str(), "server") {
        return Err(
            MessageHandleError::InvalidMessageFormat(
                "message command should start with server".to_owned(),
            ),
        );
    }
    if args.len() < 2 {
        return Err(MessageHandleError::InvalidMessageFormat("message command invalid".to_owned()));
    }
    let name: String = match &args[1] {
        WireValue::Text(t) => t.clone(),
        _ => {
            return Err(
                MessageHandleError::InvalidMessageFormat("message command invalid".to_owned()),
            );
        },
    };
    proof {
        assert(vargs[1] == ValueView::Text(name@));
    }
    let hres: Result<WireValue, MessageHandleError> = if str_eq(name.as_str(), "create") {
        handlers::create(reg, id, args)
    } else if str_eq(name.as_str(), "enter") {
        handlers::enter(reg, id, args)
    } else if str_eq(name.as_str(), "changeAvatar") {
        handlers::changeAvatar(id, args)
    } else if str_eq(name.as_str(), "server") {
        handlers::server(id, args)
    } else if str_eq(name.as_str(), "events") {
        handlers::events(id, args)
    } else if str_eq(name.as_str(), "config") {
        handlers::config(id, args)
    } else if str_eq(name.as_str(), "status") {
        handlers::status(id, args)
    } else if str_eq(name.as_str(), "send") {
        handlers::send(id, args)
    } else if str_eq(name.as_str(), "close") {
        handlers::close(id, args)
    } else {
        return Err(MessageHandleError::InvalidMessageFormat("message command invalid".to_owned()));
    };
    let resp: WireValue = match hres {
        Ok(v) => v,
        Err(e) => {
            return Err(e);
        },
    };
    let ok = deliver(reg, id, resp);
    if ok {
        Ok(())
    } else {
        Err(MessageHandleError::ServerError("send response fail".to_owned()))
    }
}

/// The room `c` effectively has in `reg`: its own room when it is an owner,
/// the owner's room when it is a guest and that owner still owns one, and
/// nothing otherwise.
pub open spec fn resolved_room(c: ClientView, reg: RegView) -> Option<Room> {
    match c.room {
        JoinedRoomView::NoRoom => None,
        JoinedRoomView::Owner(room) => Some(room),
        JoinedRoomView::Guest(owner) => if has_id(reg, owner) {
            match client_of(reg, owner).room {
                JoinedRoomView::Owner(room) => Some(room),
                _ => None,
            }
        } else {
            None
        },
    }
}

impl Client {
    /// The room this session is effectively in, resolving a guest's back
    /// reference through the registry.
    pub fn room<'a>(&'a self, reg: &'a Registry) -> (r: Option<&'a Room>)
        ensures
            match r {
                Some(room) => resolved_room(self@, reg@) == Some(*room),
                None => resolved_room(self@, reg@) is None,
            },
    {
        match &self.room {
            JoinedRoom::NoRoom => None,
            JoinedRoom::Owner(room) => Some(room),
            JoinedRoom::Guest(owner) => match reg.get(owner.as_str()) {
                Some(oc) => match &oc.room {
                    JoinedRoom::Owner(room) => Some(room),
                    _ => None,
                },
                None => None,
            },
        }
    }
}

/// A message whose envelope is well formed: a list with a string tag.
pub open spec fn well_formed_envelope(m: ValueView) -> bool {
    m matches ValueView::List(args) && args.len() > 0 && args[0] is Text
}

/// The exact auth prefix, which bypasses the auth gate.
pub open spec fn is_auth_prefix(m: ValueView) -> bool {
    m matches ValueView::List(args) && args.len() >= 2 && args[0] == ValueView::Text("server"@)
        && args[1] == ValueView::Text("cmd"@)
}

/// While a session's key is empty, every well-formed command other than a
/// heartbeat and the exact auth prefix yields `Unauthorized` and mutates
/// nothing.
pub proof fn lemma_unauthenticated_rejected(reg: RegView, id: Seq<char>, m: ValueView)
    requires
        has_id(reg, id),
        client_of(reg, id).key.len() == 0,
        well_formed_envelope(m),
        m->List_0[0] != ValueView::Text("heartbeat"@),
        !is_auth_prefix(m),
    ensures
        route_spec(reg, id, m) == (reg, Err::<(), ErrorKind>(ErrorKind::Unauthorized)),
{
}

/// A heartbeat is a complete no-op in every auth and room state: it
/// succeeds, changes no session and produces no outbound message.
pub proof fn lemma_heartbeat_noop(reg: RegView, id: Seq<char>, m: ValueView)
    requires
        m matches ValueView::List(args) && args.len() > 0 && args[0] == ValueView::Text(
            "heartbeat"@,
        ),
    ensures
        route_spec(reg, id, m) == (reg, Ok::<(), ErrorKind>(())),
{
}

/// While a session is a guest, every well-formed inbound command that is
/// not a heartbeat and not the auth prefix — one tagged `"create"` included
/// — is forwarded verbatim to the owner as `["onmessage", senderId, ...]`:
/// no handler runs, only the owner's queue changes, and the guest gets no
/// response. When the owner is gone or closed the forward is a server error
/// and nothing at all changes.
pub proof fn lemma_guest_forwards(reg: RegView, id: Seq<char>, m: ValueView)
    requires
        has_id(reg, id),
        client_of(reg, id).key.len() > 0,
        client_of(reg, id).room is Guest,
        well_formed_envelope(m),
        m->List_0[0] != ValueView::Text("heartbeat"@),
        !is_auth_prefix(m),
    ensures
        ({
            let owner = client_of(reg, id).room->Guest_0;
            let fwd = ValueView::List(
                seq![ValueView::Text("onmessage"@), ValueView::Text(id)] + m->List_0,
            );
            let (reg2, r) = route_spec(reg, id, m);
            &&& (has_id(reg, owner) && client_of(reg, owner).open) ==> {
                let oi = id_index(reg, owner)->Some_0;
                &&& r == Ok::<(), ErrorKind>(())
                &&& reg2 == upd_client(
                    reg,
                    oi,
                    ClientView { outbox: reg[oi].1.outbox.push(fwd), ..reg[oi].1 },
                )
            }
            &&& !(has_id(reg, owner) && client_of(reg, owner).open) ==> r == Err::<
                (),
                ErrorKind,
            >(ErrorKind::ServerError) && reg2 == reg
        }),
{
    let owner = client_of(reg, id).room->Guest_0;
    if has_id(reg, owner) {
        lemma_find_first_characterizes(reg, id_pred(owner));
    }
}

} // verus!