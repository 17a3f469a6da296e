//! Structured documents: the values that requests carry and responses hold.

use crate::error::{ConnectorError, ParseFailure};
use serde_json::{Number, Value};
use vstd::prelude::*;
use vstd::utf8::{encode_utf8, encode_utf8_decode_utf8};

verus! {

/// Whether two texts hold the same characters.
pub fn text_eq(a: &str, b: &str) -> (r: bool)
    ensures
        r == (a@ == b@),
{
    let x = a.as_bytes();
    let y = b.as_bytes();
    proof {
        encode_utf8_decode_utf8(a@);
        encode_utf8_decode_utf8(b@);
    }
    if x.len() != y.len() {
        return false;
    }
    let mut i: usize = 0;
    while i < x.len()
        invariant
            i <= x.len(),
            x.len() == y.len(),
            x@ == encode_utf8(a@),
            y@ == encode_utf8(b@),
            forall|j: int| 0 <= j < i ==> x@[j] == y@[j],
        decreases x.len() - i,
    {
        if x[i] != y[i] {
            return false;
        }
        i += 1;
    }
    assert(x@ =~= y@);
    true
}

/// A number of a document, as the codec classifies it.
#[derive(Debug)]
pub enum JsonNumber {
    /// A non-negative integer.
    Unsigned(u64),
    /// A negative integer.
    Negative(i64),
    /// Any other number, kept as its decimal text.
    Real(String),
}

/// A structured document.
#[derive(Debug)]
pub enum Json {
    Null,
    Bool(bool),
    Number(JsonNumber),
    Text(String),
    Array(Vec<Json>),
    /// The members in the order they are held; the first member with a given
    /// key is the one a lookup finds.
    Object(Vec<(String, Json)>),
}

/// What a `JsonNumber` stands for.
pub enum NumberView {
    Unsigned(u64),
    Negative(i64),
    Real(Seq<char>),
}

/// What a `Json` stands for.
pub enum JsonView {
    Null,
    Bool(bool),
    Number(NumberView),
    Text(Seq<char>),
    Array(Seq<JsonView>),
    Object(Seq<(Seq<char>, JsonView)>),
}

impl View for JsonNumber {
    type V = NumberView;

    open spec fn view(&self) -> NumberView {
        match self {
            JsonNumber::Unsigned(n) => NumberView::Unsigned(*n),
            JsonNumber::Negative(n) => NumberView::Negative(*n),
            JsonNumber::Real(t) => NumberView::Real(t@),
        }
    }
}

/// What the document `j` stands for.
pub open spec fn json_view(j: Json) -> JsonView
    decreases j,
{
    match j {
        Json::Null => JsonView::Null,
        Json::Bool(b) => JsonView::Bool(b),
        Json::Number(n) => JsonView::Number(n@),
        Json::Text(t) => JsonView::Text(t@),
        Json::Array(items) => JsonView::Array(
            Seq::new(
                items@.len(),
                |i: int|
                    if 0 <= i < items@.len() {
                        json_view(items@[i])
                    } else {
                        JsonView::Null
                    },
            ),
        ),
        Json::Object(members) => JsonView::Object(
            Seq::new(
                members@.len(),
                |i: int|
                    if 0 <= i < members@.len() {
                        (members@[i].0@, json_view(members@[i].1))
                    } else {
                        (Seq::empty(), JsonView::Null)
                    },
            ),
        ),
    }
}

impl View for Json {
    type V = JsonView;

    open spec fn view(&self) -> JsonView {
        json_view(*self)
    }
}

/// The views of the documents of `items`, in order.
pub open spec fn views(items: Seq<Json>) -> Seq<JsonView> {
    Seq::new(items.len(), |i: int| items[i]@)
}

/// The views of the keys and values of `members`, in order.
pub open spec fn member_views(members: Seq<(String, Json)>) -> Seq<(Seq<char>, JsonView)> {
    Seq::new(members.len(), |i: int| (members[i].0@, members[i].1@))
}

/// An array's view holds the views of its items.
pub proof fn lemma_array_view(items: Vec<Json>)
    ensures
        Json::Array(items)@ == JsonView::Array(views(items@)),
{
    
    assert(Json::Array(items)@->Array_0 =~= views(items@));
}

/// An object's view holds the views of its members.
pub proof fn lemma_object_view(members: Vec<(String, Json)>)
    ensures
        Json::Object(members)@ == JsonView::Object(member_views(members@)),
{
    assert(Json::Object(members)@->Object_0 =~= member_views(members@));
}

/// The value of the first of `members` whose key is `key`.
pub open spec fn lookup(members: Seq<(Seq<char>, JsonView)>, key: Seq<char>) -> Option<JsonView>
    decreases members.len(),
{
    if members.len() == 0 {
        None
    } else if members[0].0 == key {
        Some(members[0].1)
    } else {
        lookup(members.drop_first(), key)
    }
}

impl JsonView {
    /// The member `key` of an object; `None` of any other document and of an
    /// object without that key.
    pub open spec fn member(self, key: Seq<char>) -> Option<JsonView> {
        match self {
            JsonView::Object(members) => lookup(members, key),
            _ => None,
        }
    }

    /// The items of an array; `None` of any other document.
    pub open spec fn items(self) -> Option<Seq<JsonView>> {
        match self {
            JsonView::Array(items) => Some(items),
            _ => None,
        }
    }

    /// The value of a non-negative integer; `None` of any other document.
    pub open spec fn unsigned(self) -> Option<u64> {
        match self {
            JsonView::Number(NumberView::Unsigned(n)) => Some(n),
            _ => None,
        }
    }

    /// The characters of a text; `None` of any other document.
    pub open spec fn text(self) -> Option<Seq<char>> {
        match self {
            JsonView::Text(t) => Some(t),
            _ => None,
        }
    }
}

/// `lookup` finds the member at `i` when no earlier member has the key.
proof fn lemma_lookup_first(members: Seq<(Seq<char>, JsonView)>, key: Seq<char>, i: int)
    requires
        0 <= i < members.len(),
        members[i].0 == key,
        forall|j: int| 0 <= j < i ==> members[j].0 != key,
    ensures
        lookup(members, key) == Some(members[i].1),
    decreases i,
{
    if i > 0 {
        let rest = members.drop_first();
        assert forall|j: int| 0 <= j < i - 1 implies rest[j].0 != key by {
            assert(rest[j] == members[j + 1]);
        }
        lemma_lookup_first(rest, key, i - 1);
    }
}

/// `lookup` finds nothing when no member has the key.
proof fn lemma_lookup_absent(members: Seq<(Seq<char>, JsonView)>, key: Seq<char>)
    requires
        forall|j: int| 0 <= j < members.len() ==> members[j].0 != key,
    ensures
        lookup(members, key) is None,
    decreases members.len(),
{
    if members.len() > 0 {
        let rest = members.drop_first();
        assert forall|j: int| 0 <= j < rest.len() implies rest[j].0 != key by {
            assert(rest[j] == members[j + 1]);
        }
        lemma_lookup_absent(rest, key);
    }
}

/// The place of the first of `members` whose key is `key`.
fn position(members: &Vec<(String, Json)>, key: &str) -> (r: Option<usize>)
    ensures
        match r {
            Some(i) => i < members@.len() && lookup(member_views(members@), key@) == Some(
                members@[i as int].1@,
            ),
            None => lookup(member_views(members@), key@) is None,
        },
{
    let ghost all = member_views(members@);
    let mut i: usize = 0;
    while i < members.len()
        invariant
            i <= members@.len(),
            all == member_views(members@),
            forall|j: int| 0 <= j < i ==> all[j].0 != key@,
        decreases members@.len() - i,
    {
        if text_eq(members[i].0.as_str(), key) {
            proof {
                lemma_lookup_first(all, key@, i as int);
            }
            return Some(i);
        }
        i += 1;
    }
    proof {
        lemma_lookup_absent(all, key@);
    }
    None
}

impl Json {
    /// The member `key` of an object.
    pub fn member(&self, key: &str) -> (r: Option<&Json>)
        ensures
            match r {
                Some(v) => self@.member(key@) == Some(v@),
                None => self@.member(key@) is None,
            },
    {
        match self {
            Json::Object(members) => {
                proof {
                    lemma_object_view(*members);
                }
                match position(members, key) {
                    Some(i) => Some(&members[i].1),
                    None => None,
                }
            },
            _ => None,
        }
    }

    /// Takes the member `key` out of an object.
    pub fn into_member(self, key: &str) -> (r: Option<Json>)
        ensures
            match r {
                Some(v) => self@.member(key@) == Some(v@),
                None => self@.member(key@) is None,
            },
    {
        match self {
            Json::Object(members) => {
                proof {
                    lemma_object_view(members);
                }
                let mut members = members;
                match position(&members, key) {
                    Some(i) => {
                        let found = members.remove(i);
                        Some(found.1)
                    },
                    None => None,
                }
            },
            _ => None,
        }
    }

    /// The items of an array.
    pub fn as_array(&self) -> (r: Option<&Vec<Json>>)
        ensures
            match r {
                Some(items) => self@.items() == Some(views(items@)),
                None => self@.items() is None,
            },
    {
        match self {
            Json::Array(items) => {
                proof {
                    lemma_array_view(*items);
                }
                Some(items)
            },
            _ => None,
        }
    }

    /// Takes the items out of an array.
    pub fn into_array(self) -> (r: Option<Vec<Json>>)
        ensures
            match r {
                Some(items) => self@.items() == Some(views(items@)),
                None => self@.items() is None,
            },
    {
        match self {
            Json::Array(items) => {
                proof {
                    lemma_array_view(items);
                }
                Some(items)
            },
            _ => None,
        }
    }

    /// A copy of the document.
    #[verifier::loop_isolation(false)]
    pub fn duplicate(&self) -> (r: Json)
        ensures
            r@ == self@,
        decreases self,
    {
        match self {
            Json::Null => Json::Null,
            Json::Bool(b) => Json::Bool(*b),
            Json::Number(JsonNumber::Unsigned(n)) => Json::Number(JsonNumber::Unsigned(*n)),
            Json::Number(JsonNumber::Negative(n)) => Json::Number(JsonNumber::Negative(*n)),
            Json::Number(JsonNumber::Real(t)) => Json::Number(JsonNumber::Real(t.clone())),
            Json::Text(t) => Json::Text(t.clone()),
            Json::Array(items) => {
                let mut out: Vec<Json> = Vec::new();
                let mut i: usize = 0;
                while i < items.len()
                    invariant
                        i <= items@.len(),
                        out@.len() == i,
                        forall|j: int| 0 <= j < i ==> (#[trigger] out@[j])@ == items@[j]@,
                    decreases items@.len() - i,
                {
                    out.push(items[i].duplicate());
                    i += 1;
                }
                proof {
                    lemma_array_view(out);
                    lemma_array_view(*items);
                    assert(views(out@) =~= views(items@));
                }
                Json::Array(out)
            },
            Json::Object(members) => {
                let mut out: Vec<(String, Json)> = Vec::new();
                let mut i: usize = 0;
                while i < members.len()
                    invariant
                        i <= members@.len(),
                        out@.len() == i,
                        forall|j: int|
                            0 <= j < i ==> (#[trigger] out@[j]).0@ == members@[j].0@ && out@[j].1@
                                == members@[j].1@,
                    decreases members@.len() - i,
                {
                    out.push((members[i].0.clone(), members[i].1.duplicate()));
                    i += 1;
                }
                proof {
                    lemma_object_view(out);
                    lemma_object_view(*members);
                    assert(member_views(out@) =~= member_views(members@));
                }
                Json::Object(out)
            },
        }
    }

    /// The value of a non-negative integer.
    pub fn as_u64(&self) -> (r: Option<u64>)
        ensures
            r == self@.unsigned(),
    {
        match self {
            Json::Number(JsonNumber::Unsigned(n)) => Some(*n),
            _ => None,
        }
    }

    /// The characters of a text.
    pub fn as_text(&self) -> (r: Option<&String>)
        ensures
            match r {
                Some(t) => self@.text() == Some(t@),
                None => self@.text() is None,
            },
    {
        match self {
            Json::Text(t) => Some(t),
            _ => None,
        }
    }
}

/// Whether a member before the one at `i` has the same key.
pub open spec fn occurs_before(members: Seq<(Seq<char>, JsonView)>, i: int) -> bool {
    exists|j: int| 0 <= j < i && (#[trigger] members[j]).0 == members[i].0
}

/// The members without repeated keys: of members with the same key the first
/// is kept, and the order of those kept stays.
pub open spec fn first_of_each(members: Seq<(Seq<char>, JsonView)>) -> Seq<(Seq<char>, JsonView)>
    decreases members.len(),
{
    if members.len() == 0 {
        Seq::empty()
    } else if occurs_before(members, members.len() - 1) {
        first_of_each(members.drop_last())
    } else {
        first_of_each(members.drop_last()).push(members.last())
    }
}

/// The document without repeated keys: in every object of it, at any depth,
/// of members with the same key the first is kept.
pub open spec fn canonical(doc: JsonView) -> JsonView
    decreases doc,
{
    match doc {
        JsonView::Array(items) => JsonView::Array(canonical_items(items)),
        JsonView::Object(members) => JsonView::Object(first_of_each(canonical_members(members))),
        _ => doc,
    }
}

/// Each of `items` without repeated keys.
pub open spec fn canonical_items(items: Seq<JsonView>) -> Seq<JsonView>
    decreases items,
{
    Seq::new(
        items.len(),
        |i: int|
            if 0 <= i < items.len() {
                canonical(items[i])
            } else {
                JsonView::Null
            },
    )
}

/// Each of `members` with its value without repeated keys.
pub open spec fn canonical_members(members: Seq<(Seq<char>, JsonView)>) -> Seq<
    (Seq<char>, JsonView),
>
    decreases members,
{
    Seq::new(
        members.len(),
        |i: int|
            if 0 <= i < members.len() {
                (members[i].0, canonical(members[i].1))
            } else {
                (Seq::empty(), JsonView::Null)
            },
    )
}

/// Whether no two of `members` have the same key.
pub open spec fn distinct_keys(members: Seq<(Seq<char>, JsonView)>) -> bool {
    forall|i: int, j: int|
        0 <= i < j < members.len() ==> (#[trigger] members[i]).0 != (#[trigger] members[j]).0
}

/// Whether no object of the document, at any depth, has two members with the
/// same key.
pub open spec fn no_repeats(doc: JsonView) -> bool
    decreases doc,
{
    match doc {
        JsonView::Array(items) => forall|i: int|
            0 <= i < items.len() ==> no_repeats(#[trigger] items[i]),
        JsonView::Object(members) => distinct_keys(members) && forall|i: int|
            0 <= i < members.len() ==> no_repeats((#[trigger] members[i]).1),
        _ => true,
    }
}

/// Members with distinct keys are all kept.
proof fn lemma_first_of_each_distinct(members: Seq<(Seq<char>, JsonView)>)
    requires
        distinct_keys(members),
    ensures
        first_of_each(members) == members,
    decreases members.len(),
{
    if members.len() > 0 {
        let front = members.drop_last();
        assert forall|i: int, j: int| 0 <= i < j < front.len() implies (#[trigger] front[i]).0 != (
        #[trigger] front[j]).0 by {
            assert(front[i] == members[i] && front[j] == members[j]);
        }
        lemma_first_of_each_distinct(front);
        assert(front.push(members.last()) =~= members);
    }
}

/// A document without repeated keys is its own canonical form.
pub proof fn lemma_canonical_without_repeats(doc: JsonView)
    requires
        no_repeats(doc),
    ensures
        canonical(doc) == doc,
    decreases doc,
{
    match doc {
        JsonView::Array(items) => {
            assert forall|i: int| 0 <= i < items.len() implies canonical(#[trigger] items[i])
                == items[i] by {
                lemma_canonical_without_repeats(items[i]);
            }
            assert(canonical_items(items) =~= items);
        },
        JsonView::Object(members) => {
            assert forall|i: int| 0 <= i < members.len() implies canonical(
                (#[trigger] members[i]).1,
            ) == members[i].1 by {
                lemma_canonical_without_repeats(members[i].1);
            }
            assert(canonical_members(members) =~= members);
            lemma_first_of_each_distinct(members);
        },
        _ => {},
    }
}

/// What a lookup finds is the value of one of the members.
pub proof fn lemma_lookup_is_member(members: Seq<(Seq<char>, JsonView)>, key: Seq<char>)
    requires
        lookup(members, key) is Some,
    ensures
        exists|i: int|
            0 <= i < members.len() && (#[trigger] members[i]).1 == lookup(members, key).unwrap(),
    decreases members.len(),
{
    if members[0].0 == key {
        assert(members[0].1 == lookup(members, key).unwrap());
    } else {
        let rest = members.drop_first();
        lemma_lookup_is_member(rest, key);
        let i = choose|i: int|
            0 <= i < rest.len() && (#[trigger] rest[i]).1 == lookup(rest, key).unwrap();
        assert(members[i + 1] == rest[i]);
    }
}

/// Whether a member of `members` before the one at `i` has the same key.
fn key_occurs_before(members: &Vec<(String, Json)>, i: usize) -> (r: bool)
    requires
        i < members@.len(),
    ensures
        r == exists|j: int| 0 <= j < i && (#[trigger] members@[j]).0@ == members@[i as int].0@,
{
    let mut j: usize = 0;
    while j < i
        invariant
            j <= i < members@.len(),
            forall|k: int| 0 <= k < j ==> (#[trigger] members@[k]).0@ != members@[i as int].0@,
        decreases i - j,
    {
        if text_eq(members[j].0.as_str(), members[i].0.as_str()) {
            return true;
        }
        j += 1;
    }
    false
}

impl Json {
    /// A copy of the document without repeated keys.
    #[verifier::loop_isolation(false)]
    pub fn without_repeats(&self) -> (r: Json)
        ensures
            r@ == canonical(self@),
            no_repeats(r@),
        decreases self,
    {
        match self {
            Json::Array(items) => {
                let mut out: Vec<Json> = Vec::new();
                let mut i: usize = 0;
                while i < items.len()
                    invariant
                        i <= items@.len(),
                        out@.len() == i,
                        forall|j: int| 0 <= j < i ==> (#[trigger] out@[j])@ == canonical(items@[j]@),
                        forall|j: int| 0 <= j < i ==> no_repeats((#[trigger] out@[j])@),
                    decreases items@.len() - i,
                {
                    out.push(items[i].without_repeats());
                    i += 1;
                }
                proof {
                    lemma_array_view(out);
                    lemma_array_view(*items);
                    assert(views(out@) =~= canonical(self@)->Array_0);
                    assert forall|j: int| 0 <= j < out@.len() implies no_repeats(
                        #[trigger] views(out@)[j],
                    ) by {
                        assert(no_repeats(out@[j]@));
                    }
                }
                Json::Array(out)
            },
            Json::Object(members) => {
                proof {
                    lemma_object_view(*members);
                }
                let ghost all = member_views(members@);
                let ghost cleaned = canonical_members(all);
                let mut out: Vec<(String, Json)> = Vec::new();
                let mut i: usize = 0;
                assert(cleaned.take(0) =~= Seq::empty());
                while i < members.len()
                    invariant
                        i <= members@.len(),
                        member_views(out@) == first_of_each(cleaned.take(i as int)),
                        distinct_keys(member_views(out@)),
                        forall|k: int|
                            0 <= k < out@.len() ==> no_repeats((#[trigger] member_views(out@)[k]).1),
                        forall|k: int|
                            0 <= k < out@.len() ==> exists|j: int|
                                0 <= j < i && (#[trigger] members@[j]).0@ == (
                                #[trigger] member_views(out@)[k]).0,
                    decreases members@.len() - i,
                {
                    let ghost next = cleaned.take(i + 1);
                    let ghost before = member_views(out@);
                    proof {
                        assert(next.drop_last() =~= cleaned.take(i as int));
                        assert(next.last() == cleaned[i as int]);
                        assert forall|j: int| 0 <= j <= i implies (#[trigger] next[j]).0
                            == members@[j].0@ by {}
                    }
                    let seen = key_occurs_before(members, i);
                    proof {
                        if seen {
                            let j = choose|j: int|
                                0 <= j < i && (#[trigger] members@[j]).0@ == members@[i as int].0@;
                            assert(next[j].0 == next[i as int].0);
                        }
                        if occurs_before(next, i as int) {
                            let j = choose|j: int|
                                0 <= j < i && (#[trigger] next[j]).0 == next[i as int].0;
                            assert(members@[j].0@ == members@[i as int].0@);
                        }
                        assert(seen == occurs_before(next, next.len() - 1));
                    }
                    if !seen {
                        out.push((members[i].0.clone(), members[i].1.without_repeats()));
                        proof {
                            let after = member_views(out@);
                            assert(after =~= before.push(cleaned[i as int]));
                            assert forall|k: int| 0 <= k < after.len() implies no_repeats(
                                (#[trigger] after[k]).1,
                            ) by {
                                if k < before.len() {
                                    assert(after[k] == before[k]);
                                }
                            }
                            assert forall|k: int| 0 <= k < after.len() implies exists|j: int|
                                0 <= j < i + 1 && (#[trigger] members@[j]).0@ == (
                                #[trigger] after[k]).0 by {
                                if k < before.len() {
                                    assert(after[k] == before[k]);
                                    let j = choose|j: int|
                                        0 <= j < i && (#[trigger] members@[j]).0@ == (
                                        #[trigger] before[k]).0;
                                    assert(members@[j].0@ == after[k].0);
                                } else {
                                    assert(members@[i as int].0@ == after[k].0);
                                }
                            }
                            assert forall|a: int, b: int| 0 <= a < b < after.len() implies (
                            #[trigger] after[a]).0 != (#[trigger] after[b]).0 by {
                                assert(after[a] == before[a]);
                                if b < before.len() {
                                    assert(after[b] == before[b]);
                                } else {
                                    let j = choose|j: int|
                                        0 <= j < i && (#[trigger] members@[j]).0@ == (
                                        #[trigger] before[a]).0;
                                    assert(members@[j].0@ != members@[i as int].0@);
                                }
                            }
                        }
                    } else {
                        proof {
                            assert forall|k: int| 0 <= k < out@.len() implies exists|j: int|
                                0 <= j < i + 1 && (#[trigger] members@[j]).0@ == (
                                #[trigger] member_views(out@)[k]).0 by {
                                let j = choose|j: int|
                                    0 <= j < i && (#[trigger] members@[j]).0@ == (
                                    #[trigger] member_views(out@)[k]).0;
                                assert(members@[j].0@ == member_views(out@)[k].0);
                            }
                        }
                    }
                    i += 1;
                }
                proof {
                    assert(cleaned.take(i as int) =~= cleaned);
                    lemma_object_view(out);
                }
                Json::Object(out)
            },
            _ => self.duplicate(),
        }
    }
}

/// The codec's own document type, `serde_json::Value`.
#[verifier::external_type_specification]
#[verifier::external_body]
pub struct ExCodecValue(serde_json::Value);

/// The codec's error type, `serde_json::Error`.
#[verifier::external_type_specification]
#[verifier::external_body]
pub struct ExCodecError(serde_json::Error);

/// The document that the codec, `serde_json::from_slice`, reads from `text`;
/// `None` where it rejects the text.
pub uninterp spec fn parsed_document(text: Seq<u8>) -> Option<JsonView>;

/// The text that the codec, `serde_json::to_vec`, writes for `doc`.
pub uninterp spec fn document_text(doc: JsonView) -> Seq<u8>;

/// Converts a `serde_json::Value` to a `Json`, variant by variant. A number
/// becomes `Unsigned` where `Number::as_u64` gives a value, else `Negative`
/// where `Number::as_i64` does, else `Real` with the text that the number's
/// `Display` prints. The members of an object come in the order in which the
/// codec's map hands them out. Nothing is claimed of the result.
#[verifier::external_body]
fn from_codec(v: Value) -> Json {
    match v {
        Value::Null => Json::Null,
        Value::Bool(b) => Json::Bool(b),
        Value::Number(n) => Json::Number(match (n.as_u64(), n.as_i64()) {
            (Some(u), _) => JsonNumber::Unsigned(u),
            (_, Some(i)) => JsonNumber::Negative(i),
            _ => JsonNumber::Real(n.to_string()),
        }),
        Value::String(t) => Json::Text(t),
        Value::Array(a) => Json::Array(a.into_iter().map(from_codec).collect()),
        Value::Object(m) => Json::Object(m.into_iter().map(|(k, v)| (k, from_codec(v))).collect()),
    }
}

/// Converts a `Json` to a `serde_json::Value`, variant by variant. A `Real` is
/// read back from its text as a `serde_json::Number` with
/// `serde_json::from_str`, and is `Null` where the codec reads no number from
/// the text. The members of an object are collected into the codec's map.
/// Nothing is claimed of the result.
#[verifier::external_body]
fn to_codec(j: &Json) -> Value {
    match j {
        Json::Null => Value::Null,
        Json::Bool(b) => Value::Bool(*b),
        Json::Number(JsonNumber::Unsigned(u)) => Value::from(*u),
        Json::Number(JsonNumber::Negative(i)) => Value::from(*i),
        Json::Number(JsonNumber::Real(t)) => serde_json::from_str::<Number>(t)
            .map_or(Value::Null, Value::Number),
        Json::Text(t) => Value::String(t.clone()),
        Json::Array(a) => Value::Array(a.iter().map(to_codec).collect()),
        Json::Object(m) => Value::Object(m.iter().map(|(k, v)| (k.clone(), to_codec(v))).collect()),
    }
}

/// Calls `serde_json::from_slice` for a `serde_json::Value` and converts what
/// it read. The contract claims that which document comes out, and whether
/// one does, depends on the bytes of `text` alone: it names that outcome
/// `parsed_document(text@)` and says nothing of what it is, but that no
/// object of it has a key twice: the codec holds the members of an object in
/// a map.
#[verifier::external_body]
pub(crate) fn codec_read(text: &[u8]) -> (r: Result<Json, serde_json::Error>)
    ensures
        match r {
            Ok(doc) => parsed_document(text@) == Some(doc@) && no_repeats(doc@),
            Err(_) => parsed_document(text@) is None,
        },
{
    serde_json::from_slice::<Value>(text).map(from_codec)
}

/// Converts `doc` and calls `serde_json::to_vec` on the result, which cannot
/// fail for a `serde_json::Value`. It takes documents without repeated keys
/// only, so that which of two members with the same key is written is never
/// decided here. The contract claims that the bytes depend on what `doc`
/// stands for alone: it names them `document_text(doc@)` and says nothing of
/// what they are.
#[verifier::external_body]
fn codec_write(doc: &Json) -> (r: Vec<u8>)
    requires
        no_repeats(doc@),
    ensures
        r@ == document_text(doc@),
{
    serde_json::to_vec(&to_codec(doc)).unwrap_or_default()
}

/// The payload that a response's body decodes to, given what the codec made
/// of the body.
pub fn payload(outcome: Result<Json, serde_json::Error>) -> (r: Result<Json, ConnectorError>)
    ensures
        match outcome {
            Ok(doc) => r == Ok::<Json, ConnectorError>(doc),
            Err(_) => r == Err::<Json, ConnectorError>(
                ConnectorError::Parse(ParseFailure::InvalidPayload),
            ),
        },
{
    match outcome {
        Ok(doc) => Ok(doc),
        Err(_) => Err(ConnectorError::Parse(ParseFailure::InvalidPayload)),
    }
}

/// Reads a document from its text.
pub fn decode(text: &[u8]) -> (r: Result<Json, ConnectorError>)
    ensures
        match r {
            Ok(doc) => parsed_document(text@) == Some(doc@) && no_repeats(doc@),
            Err(e) => e == ConnectorError::Parse(ParseFailure::InvalidPayload) && parsed_document(
                text@,
            ) is None,
        },
{
    payload(codec_read(text))
}

/// Writes a document as text. Repeated keys are dropped first: of members
/// with the same key the first is written.
pub fn encode(doc: &Json) -> (r: Vec<u8>)
    ensures
        r@ == document_text(canonical(doc@)),
{
    let plain = doc.without_repeats();
    codec_write(&plain)
}

} // verus!
