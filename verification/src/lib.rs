//! A session registry and message-routing core for a room-based game relay.
//!
//! Clients connect over a persistent channel; one client owns a room, others
//! join it as guests by the owner's key, and everything a guest sends after
//! joining is forwarded to the owner unmodified. This crate holds the whole
//! decision core: the client directory, the room-ownership state machine,
//! the authentication gate and the command dispatch. Transport, JSON framing
//! and identifier minting stay outside, behind plain values.
pub mod codec;
pub mod game;
pub mod wire;

use vstd::prelude::*;

use crate::game::handlers::{result_kind, ErrorKind, MessageHandleError};
use crate::game::{deliver, deliver_spec, has_id, remove_spec, Registry};
use crate::wire::{ValueView, WireValue};

verus! {

/// The greeting sent once on connect: an empty room list and the party's
/// own identifier. The only message the core ever sends unprompted.
pub open spec fn roomlist_msg(id: Seq<char>) -> ValueView {
    ValueView::List(
        seq![
            ValueView::Text("roomlist"@),
            ValueView::List(Seq::empty()),
            ValueView::List(Seq::empty()),
            ValueView::List(Seq::empty()),
            ValueView::Text(id),
        ],
    )
}

/// Greet a freshly registered session with the room list message. The one
/// failure is a session whose channel is already gone.
pub fn client_welcome(reg: &mut Registry, id: &str) -> (r: Result<(), MessageHandleError>)
    requires
        old(reg).wf(),
        has_id(old(reg)@, id@),
    ensures
        final(reg).wf(),
        final(reg)@ == deliver_spec(old(reg)@, id@, roomlist_msg(id@)).0,
        result_kind(r) == if deliver_spec(old(reg)@, id@, roomlist_msg(id@)).1 {
            Ok::<(), ErrorKind>(())
        } else {
            Err::<(), ErrorKind>(ErrorKind::ServerError)
        },
{
    let mut items: Vec<WireValue> = Vec::new();
    items.push(WireValue::Text("roomlist".to_owned()));
    items.push(WireValue::List(Vec::new()));
    items.push(WireValue::List(Vec::new()));
    items.push(WireValue::List(Vec::new()));
    items.push(WireValue::Text(id.to_owned()));
    let ghost ivs = items@;
    let msg = WireValue::List(items);
    proof {
        crate::wire::lemma_views_of(ivs);
        assert(crate::wire::views_of(ivs) =~= (roomlist_msg(id@))->List_0);
        assert(msg@ =~= roomlist_msg(id@));
    }
    let ok = deliver(reg, id, msg);
    if ok {
        Ok(())
    } else {
        Err(MessageHandleError::ServerError("send roomlist fail".to_owned()))
    }
}

/// Tear a session down: drop its registry entry and nothing else. Guests of
/// a removed owner keep their stale back reference and discover the loss
/// the next time a forward tries to resolve it.
pub fn client_disconnected(reg: &mut Registry, id: &str)
    requires
        old(reg).wf(),
    ensures
        final(reg).wf(),
        final(reg)@ == remove_spec(old(reg)@, id@),
{
    reg.remove(id);
}

} // verus!
