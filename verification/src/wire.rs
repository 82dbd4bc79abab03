//! The wire value model: every message that crosses the relay, inbound or
//! outbound, is a JSON-shaped value whose top level is a list with a string
//! tag in its first slot.
use vstd::prelude::*;

verus! {

/// An exec-level wire value. Transport code decodes each raw frame into one
/// of these before handing it to the router, and encodes outbound values
/// back into frames.
#[derive(Debug, PartialEq, Eq)]
pub enum WireValue {
    Null,
    Bool(bool),
    Int(i64),
    Text(String),
    List(Vec<WireValue>),
    Object(Vec<(String, WireValue)>),
}

/// The mathematical shape of a wire value, used by every contract.
#[verifier::ext_equal]
pub enum ValueView {
    Null,
    Bool(bool),
    Int(i64),
    Text(Seq<char>),
    List(Seq<ValueView>),
    Object(Seq<(Seq<char>, ValueView)>),
}

impl WireValue {
    /// The abstraction of a wire value: strings become character sequences,
    /// vectors become sequences, recursively.
    pub open spec fn deep(self) -> ValueView
        decreases self, 2int,
    {
        match self {
            WireValue::Null => ValueView::Null,
            WireValue::Bool(b) => ValueView::Bool(b),
            WireValue::Int(n) => ValueView::Int(n),
            WireValue::Text(s) => ValueView::Text(s@),
            WireValue::List(items) => ValueView::List(views_of(items@)),
            WireValue::Object(fields) => ValueView::Object(field_views_of(fields@)),
        }
    }
}

impl View for WireValue {
    type V = ValueView;

    open spec fn view(&self) -> ValueView {
        self.deep()
    }
}

/// The views of a sequence of wire values, elementwise.
pub open spec fn views_of(items: Seq<WireValue>) -> Seq<ValueView>
    decreases items, 1int,
{
    if items.len() == 0 {
        Seq::empty()
    } else {
        views_of(items.drop_last()).push(items.last().deep())
    }
}

/// The views of a sequence of named wire values, elementwise.
pub open spec fn field_views_of(fields: Seq<(String, WireValue)>) -> Seq<(Seq<char>, ValueView)>
    decreases fields, 1int,
{
    if fields.len() == 0 {
        Seq::empty()
    } else {
        field_views_of(fields.drop_last()).push((fields.last().0@, fields.last().1.deep()))
    }
}

/// `views_of` maps elementwise: it has the same length, and each slot holds
/// the view of the matching input slot.
pub proof fn lemma_views_of(items: Seq<WireValue>)
    ensures
        views_of(items).len() == items.len(),
        forall|i: int| 0 <= i < items.len() ==> views_of(items)[i] == items[i].deep(),
    decreases items.len(),
{
    if items.len() > 0 {
        lemma_views_of(items.drop_last());
    }
}

/// Appending one value appends its view.
pub proof fn lemma_views_of_push(items: Seq<WireValue>, v: WireValue)
    ensures
        views_of(items.push(v)) == views_of(items).push(v.deep()),
{
    assert(items.push(v).drop_last() =~= items);
    assert(items.push(v).last() == v);
}

/// `field_views_of` maps elementwise, keeping names with their values.
pub proof fn lemma_field_views_of(fields: Seq<(String, WireValue)>)
    ensures
        field_views_of(fields).len() == fields.len(),
        forall|i: int|
            0 <= i < fields.len() ==> field_views_of(fields)[i] == (
                fields[i].0@,
                fields[i].1.deep(),
            ),
    decreases fields.len(),
{
    if fields.len() > 0 {
        lemma_field_views_of(fields.drop_last());
    }
}

/// Whether two string slices hold the same characters.
pub(crate) fn str_eq(a: &str, b: &str) -> (r: bool)
    ensures
        r == (a@ == b@),
{
    let aw = a.to_owned();
    let bw = b.to_owned();
    aw == bw
}

/// Index of the first element of `s` satisfying `p`, if any.
pub open spec fn find_first<T>(s: Seq<T>, p: spec_fn(T) -> bool) -> Option<int>
    decreases s.len(),
{
    if s.len() == 0 {
        None
    } else if p(s[0]) {
        Some(0)
    } else {
        match find_first(s.drop_first(), p) {
            Some(i) => Some(i + 1),
            None => None,
        }
    }
}

/// What `find_first` returns: the match it names is real, and nothing
/// before it matches; a `None` means nothing matches at all.
pub proof fn lemma_find_first_characterizes<T>(s: Seq<T>, p: spec_fn(T) -> bool)
    ensures
        match find_first(s, p) {
            Some(k) => 0 <= k < s.len() && p(s[k]) && (forall|j: int| 0 <= j < k ==> !p(s[j])),
            None => forall|j: int| 0 <= j < s.len() ==> !p(s[j]),
        },
    decreases s.len(),
{
    if s.len() > 0 && !p(s[0]) {
        lemma_find_first_characterizes(s.drop_first(), p);
        assert forall|j: int| 1 <= j < s.len() implies s.drop_first()[j - 1] == s[j] by {}
    }
}

/// The converse: a match with a clean prefix is what `find_first` returns.
pub proof fn lemma_find_first_complete<T>(s: Seq<T>, p: spec_fn(T) -> bool, k: int)
    requires
        0 <= k < s.len(),
        p(s[k]),
        forall|j: int| 0 <= j < k ==> !p(s[j]),
    ensures
        find_first(s, p) == Some(k),
    decreases s.len(),
{
    if k > 0 {
        lemma_find_first_complete(s.drop_first(), p, k - 1);
    }
}

} // verus!
