//! How rooms and room configurations are spelt as wire values. Field names
//! are fixed lower camel case, and a room whose `config` field is absent or
//! null decodes to a room with no configuration, which is distinct from a
//! zero-valued configuration: only the latter can be entered.
use vstd::prelude::*;

use crate::game::{Room, RoomConfig};
use crate::wire::{
    field_views_of, find_first, lemma_field_views_of, lemma_find_first_characterizes,
    lemma_find_first_complete, str_eq, ValueView, WireValue,
};

verus! {

/// Holds of an object field named `name`.
pub open spec fn field_pred(name: Seq<char>) -> spec_fn((Seq<char>, ValueView)) -> bool {
    |e: (Seq<char>, ValueView)| e.0 == name
}

/// The value of the first field named `name`, if any. Later fields of the
/// same name are shadowed.
pub open spec fn obj_lookup(fields: Seq<(Seq<char>, ValueView)>, name: Seq<char>) -> Option<
    ValueView,
> {
    match find_first(fields, field_pred(name)) {
        Some(i) => Some(fields[i].1),
        None => None,
    }
}

/// How a room configuration is spelt on the wire.
pub open spec fn spec_encode_config(c: RoomConfig) -> ValueView {
    ValueView::Object(
        seq![
            ("gameStarted"@, ValueView::Bool(c.game_started)),
            ("observe"@, ValueView::Bool(c.observe)),
            ("observeReady"@, ValueView::Bool(c.observe_ready)),
        ],
    )
}

/// A wire value read back as a room configuration: an object carrying all
/// three settings as booleans. Unknown extra fields are ignored.
pub open spec fn spec_decode_config(v: ValueView) -> Option<RoomConfig> {
    match v {
        ValueView::Object(fields) => match (
            obj_lookup(fields, "gameStarted"@),
            obj_lookup(fields, "observe"@),
            obj_lookup(fields, "observeReady"@),
        ) {
            (
                Some(ValueView::Bool(g)),
                Some(ValueView::Bool(o)),
                Some(ValueView::Bool(r)),
            ) => Some(RoomConfig { game_started: g, observe: o, observe_ready: r }),
            _ => None,
        },
        _ => None,
    }
}

/// How a room is spelt on the wire: one `config` field, null when the room
/// has no configuration.
pub open spec fn spec_encode_room(room: Room) -> ValueView {
    ValueView::Object(
        seq![
            (
                "config"@,
                match room.config {
                    Some(c) => spec_encode_config(c),
                    None => ValueView::Null,
                },
            ),
        ],
    )
}

/// A wire value read back as a room: a missing or null `config` field is a
/// room with no configuration.
pub open spec fn spec_decode_room(v: ValueView) -> Option<Room> {
    match v {
        ValueView::Object(fields) => match obj_lookup(fields, "config"@) {
            None => Some(Room { config: None }),
            Some(ValueView::Null) => Some(Room { config: None }),
            Some(cv) => match spec_decode_config(cv) {
                Some(c) => Some(Room { config: Some(c) }),
                None => None,
            },
        },
        _ => None,
    }
}

/// The first field of `fields` named `name`, if any.
fn obj_get<'a>(fields: &'a Vec<(String, WireValue)>, name: &str) -> (r: Option<&'a WireValue>)
    ensures
        match r {
            Some(v) => obj_lookup(field_views_of(fields@), name@) == Some(v@),
            None => obj_lookup(field_views_of(fields@), name@) is None,
        },
{
    proof {
        lemma_field_views_of(fields@);
    }
    let ghost fvs = field_views_of(fields@);
    let n = fields.len();
    let mut i: usize = 0;
    while i < n
        invariant
            0 <= i <= n,
            n == fields@.len(),
            fvs == field_views_of(fields@),
            fvs.len() == n,
            forall|j: int| 0 <= j < n ==> fvs[j] == (fields@[j].0@, fields@[j].1.deep()),
            forall|j: int| 0 <= j < i ==> fvs[j].0 != name@,
        decreases n - i,
    {
        if str_eq(fields[i].0.as_str(), name) {
            proof {
                assert(field_pred(name@)(fvs[i as int]));
                assert forall|j: int| 0 <= j < i implies !field_pred(name@)(fvs[j]) by {}
                lemma_find_first_complete(fvs, field_pred(name@), i as int);
            }
            return Some(&fields[i].1);
        }
        i += 1;
    }
    proof {
        lemma_find_first_characterizes(fvs, field_pred(name@));
        if find_first(fvs, field_pred(name@)) is Some {
            let k = find_first(fvs, field_pred(name@))->Some_0;
            assert(field_pred(name@)(fvs[k]));
            assert(false);
        }
    }
    None
}

/// Read a wire value back as a room configuration.
pub fn decode_room_config(v: &WireValue) -> (r: Option<RoomConfig>)
    ensures
        r == spec_decode_config(v@),
{
    match v {
        WireValue::Object(fields) => {
            let g = obj_get(fields, "gameStarted");
            let o = obj_get(fields, "observe");
            let rd = obj_get(fields, "observeReady");
            match (g, o, rd) {
                (
                    Some(WireValue::Bool(g)),
                    Some(WireValue::Bool(o)),
                    Some(WireValue::Bool(rd)),
                ) => Some(RoomConfig { game_started: *g, observe: *o, observe_ready: *rd }),
                _ => None,
            }
        },
        _ => None,
    }
}

/// Spell a room configuration as a wire value.
pub fn encode_room_config(c: &RoomConfig) -> (r: WireValue)
    ensures
        r@ == spec_encode_config(*c),
{
    let mut fields: Vec<(String, WireValue)> = Vec::new();
    fields.push(("gameStarted".to_owned(), WireValue::Bool(c.game_started)));
    fields.push(("observe".to_owned(), WireValue::Bool(c.observe)));
    fields.push(("observeReady".to_owned(), WireValue::Bool(c.observe_ready)));
    let ghost fs = fields@;
    let r = WireValue::Object(fields);
    proof {
        lemma_field_views_of(fs);
        assert(field_views_of(fs) =~= (spec_encode_config(*c))->Object_0);
        assert(r@ =~= spec_encode_config(*c));
    }
    r
}

/// Read a wire value back as a room.
pub fn decode_room(v: &WireValue) -> (r: Option<Room>)
    ensures
        r == spec_decode_room(v@),
{
    match v {
        WireValue::Object(fields) => match obj_get(fields, "config") {
            None => Some(Room { config: None }),
            Some(WireValue::Null) => Some(Room { config: None }),
            Some(cv) => match decode_room_config(cv) {
                Some(c) => Some(Room { config: Some(c) }),
                None => None,
            },
        },
        _ => None,
    }
}

/// Spell a room as a wire value.
pub fn encode_room(room: &Room) -> (r: WireValue)
    ensures
        r@ == spec_encode_room(*room),
{
    let cfg_value = match &room.config {
        Some(c) => encode_room_config(c),
        None => WireValue::Null,
    };
    let mut fields: Vec<(String, WireValue)> = Vec::new();
    fields.push(("config".to_owned(), cfg_value));
    let ghost fs = fields@;
    let r = WireValue::Object(fields);
    proof {
        lemma_field_views_of(fs);
        assert(field_views_of(fs) =~= (spec_encode_room(*room))->Object_0);
        assert(r@ =~= spec_encode_room(*room));
    }
    r
}

/// Encoding a room configuration and reading it back yields the identical
/// configuration, with no field coerced.
pub proof fn lemma_config_round_trip(c: RoomConfig)
    ensures
        spec_decode_config(spec_encode_config(c)) == Some(c),
{
    reveal_strlit("gameStarted");
    reveal_strlit("observe");
    reveal_strlit("observeReady");
    assert("gameStarted"@.len() == 11 && "observe"@.len() == 7 && "observeReady"@.len() == 12);
    let fields = (spec_encode_config(c))->Object_0;
    lemma_find_first_complete(fields, field_pred("gameStarted"@), 0);
    lemma_find_first_complete(fields, field_pred("observe"@), 1);
    lemma_find_first_complete(fields, field_pred("observeReady"@), 2);
}

/// Encoding a room and reading it back yields the identical room; in
/// particular a room with no configuration comes back with none.
pub proof fn lemma_room_round_trip(room: Room)
    ensures
        spec_decode_room(spec_encode_room(room)) == Some(room),
{
    let fields = (spec_encode_room(room))->Object_0;
    lemma_find_first_complete(fields, field_pred("config"@), 0);
    match room.config {
        Some(c) => {
            lemma_config_round_trip(c);
        },
        None => {
        },
    }
}

} // verus!
