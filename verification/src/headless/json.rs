//! JSON trees of the guest's state, in a canonical form.

use vstd::prelude::*;

use crate::util::text::{
    lemma_text_total, lemma_text_transitive, text_before, text_less,
};

verus! {

/// A JSON tree. The guest's state holds no fractional numbers.
#[derive(Debug, PartialEq, Eq)]
pub enum JsonValue {
    Null,
    Bool(bool),
    Unsigned(u64),
    Signed(i64),
    Text(String),
    Array(Vec<JsonValue>),
    Object(Vec<(String, JsonValue)>),
}

/// What a JSON tree says.
pub ghost enum JsonModel {
    Null,
    Bool(bool),
    Number(int),
    Text(Seq<char>),
    Array(Seq<JsonModel>),
    Object(Seq<(Seq<char>, JsonModel)>),
}

/// What a JSON tree says.
pub open spec fn json_model(value: JsonValue) -> JsonModel
    decreases value,
{
    match value {
        JsonValue::Null => JsonModel::Null,
        JsonValue::Bool(b) => JsonModel::Bool(b),
        JsonValue::Unsigned(n) => JsonModel::Number(n as int),
        JsonValue::Signed(n) => JsonModel::Number(n as int),
        JsonValue::Text(text) => JsonModel::Text(text@),
        JsonValue::Array(items) => JsonModel::Array(
            Seq::new(
                items@.len(),
                |i: int|
                    if 0 <= i < items@.len() {
                        json_model(items@[i])
                    } else {
                        JsonModel::Null
                    },
            ),
        ),
        JsonValue::Object(members) => JsonModel::Object(
            Seq::new(
                members@.len(),
                |i: int|
                    if 0 <= i < members@.len() {
                        (members@[i].0@, json_model(members@[i].1))
                    } else {
                        (Seq::empty(), JsonModel::Null)
                    },
            ),
        ),
    }
}

impl View for JsonValue {
    type V = JsonModel;

    open spec fn view(&self) -> JsonModel {
        json_model(*self)
    }
}

/// What the members of an object say.
pub open spec fn members_model(members: Seq<(String, JsonValue)>) -> Seq<(Seq<char>, JsonModel)> {
    Seq::new(members.len(), |i: int| (members[i].0@, json_model(members[i].1)))
}

/// Members in order of their keys with one more put in.
pub open spec fn inserted(
    sorted: Seq<(Seq<char>, JsonModel)>,
    member: (Seq<char>, JsonModel),
) -> Seq<(Seq<char>, JsonModel)>
    decreases sorted.len(),
{
    if sorted.len() > 0 && text_before(member.0, sorted.last().0) {
        inserted(sorted.drop_last(), member).push(sorted.last())
    } else {
        sorted.push(member)
    }
}

/// Members in order of their keys.
pub open spec fn key_sorted(members: Seq<(Seq<char>, JsonModel)>) -> Seq<(Seq<char>, JsonModel)>
    decreases members.len(),
{
    if members.len() == 0 {
        members
    } else {
        inserted(key_sorted(members.drop_last()), members.last())
    }
}

/// A tree with the members of every object in order of their keys.
pub open spec fn canonical(value: JsonModel) -> JsonModel
    decreases value,
{
    match value {
        JsonModel::Array(items) => JsonModel::Array(canonical_items(items)),
        JsonModel::Object(members) => JsonModel::Object(key_sorted(canonical_members(members))),
        other => other,
    }
}

/// Elements in their canonical form.
pub open spec fn canonical_items(items: Seq<JsonModel>) -> Seq<JsonModel>
    decreases items,
{
    if items.len() == 0 {
        Seq::empty()
    } else {
        canonical_items(items.drop_last()).push(canonical(items.last()))
    }
}

/// Members with their values in canonical form.
pub open spec fn canonical_members(members: Seq<(Seq<char>, JsonModel)>) -> Seq<
    (Seq<char>, JsonModel),
>
    decreases members,
{
    if members.len() == 0 {
        Seq::empty()
    } else {
        canonical_members(members.drop_last()).push(
            (members.last().0, canonical(members.last().1)),
        )
    }
}

/// Each element is brought into canonical form by itself.
pub proof fn lemma_canonical_items(items: Seq<JsonModel>)
    ensures
        canonical_items(items).len() == items.len(),
        forall|i: int|
            0 <= i < items.len() ==> #[trigger] canonical_items(items)[i] == canonical(items[i]),
    decreases items.len(),
{
    if items.len() > 0 {
        lemma_canonical_items(items.drop_last());
    }
}

/// Each member's value is brought into canonical form by itself.
pub proof fn lemma_canonical_members(members: Seq<(Seq<char>, JsonModel)>)
    ensures
        canonical_members(members).len() == members.len(),
        forall|i: int|
            0 <= i < members.len() ==> #[trigger] canonical_members(members)[i] == (
                members[i].0,
                canonical(members[i].1),
            ),
    decreases members.len(),
{
    if members.len() > 0 {
        lemma_canonical_members(members.drop_last());
    }
}

/// Put a member where its key belongs among the sorted ones before it.
fn sink_member(members: &mut Vec<(String, JsonValue)>, at: usize)
    requires
        at < old(members)@.len(),
    ensures
        final(members)@.len() == old(members)@.len(),
        members_model(final(members)@) == inserted(
            members_model(old(members)@.take(at as int)),
            members_model(old(members)@)[at as int],
        ) + members_model(old(members)@.skip(at + 1)),
{
    let ghost before = members@;
    let member = members.remove(at);
    let ghost model = members_model(before)[at as int];
    let ghost sorted = members_model(before.take(at as int));
    let mut place: usize = at;
    assert(sorted.take(at as int) + seq![model] + sorted.skip(at as int) =~= sorted + seq![model]);
    assert(inserted(sorted.take(place as int), model) + sorted.skip(place as int) =~= inserted(
        sorted,
        model,
    )) by {
        assert(sorted.take(place as int) =~= sorted);
    }
    while place > 0 && text_less(member.0.as_str(), members[place - 1].0.as_str())
        invariant
            place <= at <= members@.len(),
            members@ == before.remove(at as int),
            at < before.len(),
            sorted == members_model(before.take(at as int)),
            member == before[at as int],
            model == members_model(before)[at as int],
            inserted(sorted.take(place as int), model) + sorted.skip(place as int) == inserted(
                sorted,
                model,
            ),
        decreases place,
    {
        proof {
            let shorter = sorted.take(place as int);
            assert(members@[place - 1] == before[place - 1]);
            assert(sorted[place - 1].0 == before[place - 1].0@);
            assert(shorter.drop_last() =~= sorted.take(place - 1));
            assert(inserted(shorter, model) == inserted(sorted.take(place - 1), model).push(
                shorter.last(),
            ));
            assert(inserted(sorted.take(place - 1), model) + sorted.skip(place - 1) =~= inserted(
                shorter,
                model,
            ) + sorted.skip(place as int));
        }
        place -= 1;
    }
    proof {
        if place > 0 {
            assert(members@[place - 1] == before[place - 1]);
            assert(sorted[place - 1].0 == before[place - 1].0@);
        }
        assert(inserted(sorted.take(place as int), model) == sorted.take(place as int).push(model));
    }
    members.insert(place, member);
    proof {
        let whole = members_model(members@);
        let tail = members_model(before.skip(at + 1));
        assert(inserted(sorted, model) == sorted.take(place as int).push(model) + sorted.skip(
            place as int,
        ));
        assert(whole =~= inserted(sorted, model) + tail);
    }
}

/// Put the members of an object in order of their keys.
fn sort_members(members: &mut Vec<(String, JsonValue)>)
    ensures
        final(members)@.len() == old(members)@.len(),
        members_model(final(members)@) == key_sorted(members_model(old(members)@)),
{
    let ghost before = members_model(members@);
    let mut i: usize = 0;
    assert(before.take(0) =~= Seq::empty());
    assert(members_model(members@) =~= key_sorted(before.take(0)) + before.skip(0));
    while i < members.len()
        invariant
            i <= members@.len(),
            members@.len() == before.len(),
            key_sorted(before.take(i as int)).len() == i,
            members_model(members@) == key_sorted(before.take(i as int)) + before.skip(i as int),
        decreases members@.len() - i,
    {
        let ghost current = members@;
        let ghost model = members_model(current);
        let ghost sorted = key_sorted(before.take(i as int));
        sink_member(members, i);
        proof {
            assert(model[i as int] == before[i as int]);
            assert(members_model(current.take(i as int)) =~= sorted) by {
                assert forall|k: int| 0 <= k < i implies #[trigger] members_model(
                    current.take(i as int),
                )[k] == sorted[k] by {
                    assert(model[k] == sorted[k]);
                }
            }
            assert(members_model(current.skip(i + 1)) =~= before.skip(i + 1)) by {
                assert forall|k: int| 0 <= k < before.len() - i - 1 implies #[trigger] members_model(
                    current.skip(i + 1),
                )[k] == before.skip(i + 1)[k] by {
                    assert(model[k + i + 1] == before.skip(i as int)[k + 1]);
                }
            }
            assert(before.take(i + 1).drop_last() =~= before.take(i as int));
            assert(key_sorted(before.take(i + 1)) == inserted(sorted, before[i as int]));
            lemma_inserted_len(sorted, before[i as int]);
        }
        i += 1;
    }
    assert(before.take(i as int) =~= before);
    assert(members_model(members@) =~= key_sorted(before));
}

/// Putting a member in makes the members one more.
proof fn lemma_inserted_len(
    sorted: Seq<(Seq<char>, JsonModel)>,
    member: (Seq<char>, JsonModel),
)
    ensures
        inserted(sorted, member).len() == sorted.len() + 1,
    decreases sorted.len(),
{
    if sorted.len() > 0 {
        lemma_inserted_len(sorted.drop_last(), member);
    }
}

/// Bring the values of members into their canonical form.
fn canonicalize_members(members: &mut Vec<(String, JsonValue)>)
    ensures
        final(members)@.len() == old(members)@.len(),
        members_model(final(members)@) == canonical_members(members_model(old(members)@)),
    decreases *old(members),
{
    let ghost before = members@;
    let mut i: usize = 0;
    while i < members.len()
        invariant
            i <= members@.len(),
            before == old(members)@,
            members@.len() == before.len(),
            forall|k: int| i <= k < before.len() ==> members@[k] == before[k],
            forall|k: int|
                0 <= k < i ==> (#[trigger] members@[k]).0 == before[k].0 && json_model(
                    members@[k].1,
                ) == canonical(json_model(before[k].1)),
        decreases members@.len() - i,
    {
        assert(members@[i as int] == before[i as int]);
        assert(decreases_to!(*old(members) => old(members)@[i as int]));
        canonicalize(&mut members[i].1);
        i += 1;
    }
    proof {
        lemma_canonical_members(members_model(before));
    }
    assert(members_model(members@) =~= canonical_members(members_model(before)));
}

/// Bring the elements of an array into their canonical form.
fn canonicalize_items(items: &mut Vec<JsonValue>)
    ensures
        final(items)@.len() == old(items)@.len(),
        forall|k: int|
            0 <= k < old(items)@.len() ==> json_model(#[trigger] final(items)@[k]) == canonical(
                json_model(old(items)@[k]),
            ),
    decreases *old(items),
{
    let ghost before = items@;
    let mut i: usize = 0;
    while i < items.len()
        invariant
            i <= items@.len(),
            before == old(items)@,
            items@.len() == before.len(),
            forall|k: int| i <= k < before.len() ==> items@[k] == before[k],
            forall|k: int|
                0 <= k < i ==> json_model(#[trigger] items@[k]) == canonical(json_model(before[k])),
        decreases items@.len() - i,
    {
        assert(items@[i as int] == before[i as int]);
        canonicalize(&mut items[i]);
        i += 1;
    }
}

/// What an object says is what its members say.
pub proof fn lemma_object_model(members: Vec<(String, JsonValue)>)
    ensures
        json_model(JsonValue::Object(members)) == JsonModel::Object(members_model(members@)),
{
    assert(json_model(JsonValue::Object(members))->Object_0 =~= members_model(members@));
}

/// Bring a tree into its canonical form.
pub fn canonicalize(value: &mut JsonValue)
    ensures
        final(value)@ == canonical(old(value)@),
    decreases *old(value),
{
    match value {
        JsonValue::Object(members) => {
            proof {
                lemma_object_model(*members);
            }
            canonicalize_members(members);
            sort_members(members);
            proof {
                lemma_object_model(*members);
            }
        },
        JsonValue::Array(items) => {
            let ghost before = json_model(JsonValue::Array(*items))->Array_0;
            canonicalize_items(items);
            proof {
                lemma_canonical_items(before);
                assert(json_model(JsonValue::Array(*items))->Array_0 =~= canonical_items(before));
            }
        },
        _ => {},
    }
}

/// Whether no two members have the same key.
pub open spec fn distinct_keys(members: Seq<(Seq<char>, JsonModel)>) -> bool {
    forall|i: int, j: int|
        0 <= i < members.len() && 0 <= j < members.len() && i != j ==> (#[trigger] members[i]).0 != (
        #[trigger] members[j]).0
}

/// Whether every member's key is at or after the keys before it.
pub open spec fn keys_in_order(members: Seq<(Seq<char>, JsonModel)>) -> bool {
    forall|i: int, j: int|
        0 <= i < j < members.len() ==> !text_before(
            (#[trigger] members[j]).0,
            (#[trigger] members[i]).0,
        )
}

/// Putting a member in keeps the order and the other members.
proof fn lemma_inserted(sorted: Seq<(Seq<char>, JsonModel)>, member: (Seq<char>, JsonModel))
    requires
        keys_in_order(sorted),
    ensures
        keys_in_order(inserted(sorted, member)),
        forall|m: (Seq<char>, JsonModel)| #[trigger]
            inserted(sorted, member).contains(m) <==> m == member || sorted.contains(m),
    decreases sorted.len(),
{
    let result = inserted(sorted, member);
    if sorted.len() > 0 && text_before(member.0, sorted.last().0) {
        let shorter = sorted.drop_last();
        let last = sorted.last();
        let inner = inserted(shorter, member);
        assert forall|i: int, j: int| 0 <= i < j < shorter.len() implies !text_before(
            (#[trigger] shorter[j]).0,
            (#[trigger] shorter[i]).0,
        ) by {
            assert(shorter[j] == sorted[j] && shorter[i] == sorted[i]);
        }
        lemma_inserted(shorter, member);
        assert forall|m: (Seq<char>, JsonModel)| #[trigger] result.contains(m) <==> m == member
            || sorted.contains(m) by {
            assert(sorted =~= shorter.push(last));
            lemma_push_contains(inner, last, m);
            lemma_push_contains(shorter, last, m);
            assert(inner.contains(m) <==> m == member || shorter.contains(m));
        }
        assert forall|i: int, j: int| 0 <= i < j < result.len() implies !text_before(
            (#[trigger] result[j]).0,
            (#[trigger] result[i]).0,
        ) by {
            if j == inner.len() {
                assert(inner.contains(result[i]));
                lemma_text_total(member.0, last.0);
                if result[i] != member {
                    let k = choose|k: int| 0 <= k < shorter.len() && shorter[k] == result[i];
                    assert(sorted[k] == result[i] && sorted[sorted.len() - 1] == last);
                }
            } else {
                assert(inner[j] == result[j] && inner[i] == result[i]);
            }
        }
    } else {
        assert forall|m: (Seq<char>, JsonModel)| #[trigger] result.contains(m) <==> m == member
            || sorted.contains(m) by {
            lemma_push_contains(sorted, member, m);
        }
        assert forall|i: int, j: int| 0 <= i < j < result.len() implies !text_before(
            (#[trigger] result[j]).0,
            (#[trigger] result[i]).0,
        ) by {
            if j == sorted.len() {
                let last = sorted.last();
                if i < sorted.len() - 1 {
                    assert(!text_before(sorted[sorted.len() - 1].0, sorted[i].0));
                    lemma_text_total(sorted[i].0, last.0);
                    lemma_text_total(member.0, last.0);
                    if text_before(member.0, sorted[i].0) {
                        if sorted[i].0 != last.0 {
                            lemma_text_transitive(member.0, sorted[i].0, last.0);
                        }
                    }
                }
            } else {
                assert(sorted[j] == result[j] && sorted[i] == result[i]);
            }
        }
    }
}

/// What a longer sequence holds.
proof fn lemma_push_contains<A>(s: Seq<A>, last: A, m: A)
    ensures
        s.push(last).contains(m) <==> m == last || s.contains(m),
{
    let longer = s.push(last);
    if longer.contains(m) {
        let k = choose|k: int| 0 <= k < longer.len() && longer[k] == m;
        if k < s.len() {
            assert(s[k] == m);
        }
    }
    if s.contains(m) {
        let k = choose|k: int| 0 <= k < s.len() && s[k] == m;
        assert(longer[k] == m);
    }
    assert(longer[s.len() as int] == last);
}

/// Sorting puts the keys in order and keeps the members.
pub proof fn lemma_key_sorted(members: Seq<(Seq<char>, JsonModel)>)
    ensures
        keys_in_order(key_sorted(members)),
        key_sorted(members).len() == members.len(),
        forall|m: (Seq<char>, JsonModel)| #[trigger]
            key_sorted(members).contains(m) <==> members.contains(m),
    decreases members.len(),
{
    if members.len() > 0 {
        let shorter = members.drop_last();
        lemma_key_sorted(shorter);
        lemma_inserted(key_sorted(shorter), members.last());
        lemma_inserted_len(key_sorted(shorter), members.last());
        assert forall|m: (Seq<char>, JsonModel)| #[trigger] key_sorted(members).contains(m)
            <==> members.contains(m) by {
            assert(members =~= shorter.push(members.last()));
            lemma_push_contains(shorter, members.last(), m);
            assert(key_sorted(shorter).contains(m) <==> shorter.contains(m));
        }
    }
}

/// Sorting members that are in order changes nothing.
proof fn lemma_sorted_stays(members: Seq<(Seq<char>, JsonModel)>)
    requires
        keys_in_order(members),
    ensures
        key_sorted(members) == members,
    decreases members.len(),
{
    if members.len() > 0 {
        let shorter = members.drop_last();
        assert forall|i: int, j: int| 0 <= i < j < shorter.len() implies !text_before(
            (#[trigger] shorter[j]).0,
            (#[trigger] shorter[i]).0,
        ) by {
            assert(shorter[j] == members[j] && shorter[i] == members[i]);
        }
        lemma_sorted_stays(shorter);
        if shorter.len() > 0 {
            assert(members[shorter.len() - 1] == shorter.last());
            assert(members[members.len() - 1] == members.last());
        }
        assert(shorter.push(members.last()) =~= members);
    }
}

/// A tree in canonical form stays as it is.
pub proof fn law_canonical_form_is_stable(value: JsonModel)
    ensures
        canonical(canonical(value)) == canonical(value),
    decreases value,
{
    match value {
        JsonModel::Array(items) => {
            let once = canonical_items(items);
            lemma_canonical_items(items);
            lemma_canonical_items(once);
            assert forall|i: int| 0 <= i < items.len() implies canonical_items(once)[i]
                == #[trigger] once[i] by {
                law_canonical_form_is_stable(items[i]);
                assert(once[i] == canonical(items[i]));
            }
            assert(canonical_items(once) =~= once);
        },
        JsonModel::Object(members) => {
            let values = canonical_members(members);
            let once = key_sorted(values);
            let twice = canonical_members(once);
            lemma_canonical_members(members);
            lemma_canonical_members(once);
            lemma_key_sorted(values);
            assert forall|i: int| 0 <= i < once.len() implies twice[i] == #[trigger] once[i] by {
                assert(once.contains(once[i]));
                let k = choose|k: int| 0 <= k < values.len() && values[k] == once[i];
                assert(values[k] == (members[k].0, canonical(members[k].1)));
                law_canonical_form_is_stable(members[k].1);
            }
            assert(twice =~= once);
            lemma_sorted_stays(once);
        },
        _ => {},
    }
}

/// Two sequences of members in order that hold the same members are the same.
proof fn lemma_order_is_unique(a: Seq<(Seq<char>, JsonModel)>, b: Seq<(Seq<char>, JsonModel)>)
    requires
        keys_in_order(a),
        keys_in_order(b),
        distinct_keys(a),
        distinct_keys(b),
        forall|m: (Seq<char>, JsonModel)| #[trigger] a.contains(m) <==> b.contains(m),
    ensures
        a == b,
    decreases a.len(),
{
    if a.len() == 0 {
        if b.len() > 0 {
            assert(b.contains(b[0]));
            assert(a.contains(b[0]));
        }
        assert(a =~= b);
    } else {
        let last = a.last();
        assert(a[a.len() - 1] == last);
        assert(a.contains(last));
        assert(b.contains(last));
        let k = choose|k: int| 0 <= k < b.len() && b[k] == last;
        let other = b.last();
        assert(b[b.len() - 1] == other);
        assert(b.contains(other));
        assert(a.contains(other));
        let n = choose|n: int| 0 <= n < a.len() && a[n] == other;
        if k < b.len() - 1 {
            assert(!text_before(b[b.len() - 1].0, b[k].0));
            assert(b[b.len() - 1].0 != b[k].0);
            if n < a.len() - 1 {
                assert(!text_before(a[a.len() - 1].0, a[n].0));
                assert(a[a.len() - 1].0 != a[n].0);
                lemma_text_total(last.0, other.0);
            }
        }
        assert(last == other);
        let shorter = a.drop_last();
        let fewer = b.drop_last();
        assert forall|m: (Seq<char>, JsonModel)| #[trigger] shorter.contains(m) <==> fewer.contains(
            m,
        ) by {
            assert(a =~= shorter.push(last) && b =~= fewer.push(last));
            lemma_push_contains(shorter, last, m);
            lemma_push_contains(fewer, last, m);
            assert(a.contains(m) <==> b.contains(m));
            if shorter.contains(m) && m == last {
                let i = choose|i: int| 0 <= i < shorter.len() && shorter[i] == m;
                assert(a[i].0 == a[a.len() - 1].0);
            }
            if fewer.contains(m) && m == last {
                let i = choose|i: int| 0 <= i < fewer.len() && fewer[i] == m;
                assert(b[i].0 == b[b.len() - 1].0);
            }
        }
        assert(keys_in_order(shorter) && distinct_keys(shorter)) by {
            assert forall|i: int, j: int| 0 <= i < j < shorter.len() implies !text_before(
                (#[trigger] shorter[j]).0,
                (#[trigger] shorter[i]).0,
            ) by {
                assert(shorter[j] == a[j] && shorter[i] == a[i]);
            }
            assert forall|i: int, j: int|
                0 <= i < shorter.len() && 0 <= j < shorter.len() && i != j implies (
            #[trigger] shorter[i]).0 != (#[trigger] shorter[j]).0 by {
                assert(shorter[j] == a[j] && shorter[i] == a[i]);
            }
        }
        assert(keys_in_order(fewer) && distinct_keys(fewer)) by {
            assert forall|i: int, j: int| 0 <= i < j < fewer.len() implies !text_before(
                (#[trigger] fewer[j]).0,
                (#[trigger] fewer[i]).0,
            ) by {
                assert(fewer[j] == b[j] && fewer[i] == b[i]);
            }
            assert forall|i: int, j: int|
                0 <= i < fewer.len() && 0 <= j < fewer.len() && i != j implies (
            #[trigger] fewer[i]).0 != (#[trigger] fewer[j]).0 by {
                assert(fewer[j] == b[j] && fewer[i] == b[i]);
            }
        }
        lemma_order_is_unique(shorter, fewer);
        assert(a =~= shorter.push(last) && b =~= fewer.push(last));
    }
}

/// Putting a new key in keeps the keys distinct.
proof fn lemma_inserted_distinct(
    sorted: Seq<(Seq<char>, JsonModel)>,
    member: (Seq<char>, JsonModel),
)
    requires
        distinct_keys(sorted),
        forall|i: int| 0 <= i < sorted.len() ==> (#[trigger] sorted[i]).0 != member.0,
    ensures
        distinct_keys(inserted(sorted, member)),
        forall|i: int|
            0 <= i < inserted(sorted, member).len() ==> (#[trigger] inserted(sorted, member)[i]).0
                == member.0 || sorted.contains(inserted(sorted, member)[i]),
    decreases sorted.len(),
{
    let result = inserted(sorted, member);
    if sorted.len() > 0 && text_before(member.0, sorted.last().0) {
        let shorter = sorted.drop_last();
        let inner = inserted(shorter, member);
        assert(distinct_keys(shorter)) by {
            assert forall|i: int, j: int|
                0 <= i < shorter.len() && 0 <= j < shorter.len() && i != j implies (
            #[trigger] shorter[i]).0 != (#[trigger] shorter[j]).0 by {
                assert(shorter[j] == sorted[j] && shorter[i] == sorted[i]);
            }
        }
        assert forall|i: int| 0 <= i < shorter.len() implies (#[trigger] shorter[i]).0
            != member.0 by {
            assert(shorter[i] == sorted[i]);
        }
        lemma_inserted_distinct(shorter, member);
        assert forall|i: int| 0 <= i < inner.len() implies (#[trigger] inner[i]).0
            != sorted.last().0 && (inner[i].0 == member.0 || sorted.contains(inner[i])) by {
            assert(sorted[sorted.len() - 1].0 != member.0);
            if inner[i].0 != member.0 {
                let k = choose|k: int| 0 <= k < shorter.len() && shorter[k] == inner[i];
                assert(sorted[k] == inner[i]);
                assert(sorted[k].0 != sorted[sorted.len() - 1].0);
            }
        }
        assert forall|i: int, j: int|
            0 <= i < result.len() && 0 <= j < result.len() && i != j implies (
        #[trigger] result[i]).0 != (#[trigger] result[j]).0 by {
            if i < inner.len() {
                assert(result[i] == inner[i]);
            }
            if j < inner.len() {
                assert(result[j] == inner[j]);
            }
        }
        assert forall|i: int| 0 <= i < result.len() implies (#[trigger] result[i]).0 == member.0
            || sorted.contains(result[i]) by {
            if i < inner.len() {
                assert(result[i] == inner[i]);
            } else {
                assert(sorted[sorted.len() - 1] == result[i]);
            }
        }
    } else {
        assert forall|i: int, j: int|
            0 <= i < result.len() && 0 <= j < result.len() && i != j implies (
        #[trigger] result[i]).0 != (#[trigger] result[j]).0 by {
            if i < sorted.len() {
                assert(result[i] == sorted[i]);
            }
            if j < sorted.len() {
                assert(result[j] == sorted[j]);
            }
        }
        assert forall|i: int| 0 <= i < result.len() implies (#[trigger] result[i]).0 == member.0
            || sorted.contains(result[i]) by {
            if i < sorted.len() {
                assert(sorted[i] == result[i]);
            }
        }
    }
}

/// Sorting keeps the keys distinct.
pub proof fn lemma_sorted_distinct(members: Seq<(Seq<char>, JsonModel)>)
    requires
        distinct_keys(members),
    ensures
        distinct_keys(key_sorted(members)),
    decreases members.len(),
{
    if members.len() > 0 {
        let shorter = members.drop_last();
        assert forall|i: int, j: int|
            0 <= i < shorter.len() && 0 <= j < shorter.len() && i != j implies (
        #[trigger] shorter[i]).0 != (#[trigger] shorter[j]).0 by {
            assert(shorter[j] == members[j] && shorter[i] == members[i]);
        }
        lemma_sorted_distinct(shorter);
        lemma_key_sorted(shorter);
        let sorted = key_sorted(shorter);
        assert forall|i: int| 0 <= i < sorted.len() implies (#[trigger] sorted[i]).0
            != members.last().0 by {
            assert(sorted.contains(sorted[i]));
            let k = choose|k: int| 0 <= k < shorter.len() && shorter[k] == sorted[i];
            assert(members[k] == shorter[k]);
            assert(members[k].0 != members[members.len() - 1].0);
        }
        lemma_inserted_distinct(sorted, members.last());
    }
}

/// Whether every member of one object has a member of the other with the same key and a value
/// with the same canonical form.
pub open spec fn members_covered(
    a: Seq<(Seq<char>, JsonModel)>,
    b: Seq<(Seq<char>, JsonModel)>,
) -> bool {
    forall|i: int|
        #![trigger a[i]]
        0 <= i < a.len() ==> exists|j: int|
            #![trigger b[j]]
            0 <= j < b.len() && b[j].0 == a[i].0 && canonical(b[j].1) == canonical(a[i].1)
}

/// The order in which an object has its members does not change its canonical form, at any depth:
/// the values need only have the same canonical forms.
pub proof fn law_member_order_does_not_matter(
    a: Seq<(Seq<char>, JsonModel)>,
    b: Seq<(Seq<char>, JsonModel)>,
)
    requires
        distinct_keys(a),
        distinct_keys(b),
        members_covered(a, b),
        members_covered(b, a),
    ensures
        canonical(JsonModel::Object(a)) == canonical(JsonModel::Object(b)),
{
    let ca = canonical_members(a);
    let cb = canonical_members(b);
    lemma_canonical_members(a);
    lemma_canonical_members(b);
    assert(distinct_keys(ca)) by {
        assert forall|i: int, j: int| 0 <= i < ca.len() && 0 <= j < ca.len() && i != j implies (
        #[trigger] ca[i]).0 != (#[trigger] ca[j]).0 by {
            assert(a[i].0 != a[j].0);
        }
    }
    assert(distinct_keys(cb)) by {
        assert forall|i: int, j: int| 0 <= i < cb.len() && 0 <= j < cb.len() && i != j implies (
        #[trigger] cb[i]).0 != (#[trigger] cb[j]).0 by {
            assert(b[i].0 != b[j].0);
        }
    }
    lemma_key_sorted(ca);
    lemma_key_sorted(cb);
    lemma_sorted_distinct(ca);
    lemma_sorted_distinct(cb);
    assert forall|m: (Seq<char>, JsonModel)| #[trigger] key_sorted(ca).contains(m) <==> key_sorted(
        cb,
    ).contains(m) by {
        if ca.contains(m) {
            let i = choose|i: int| 0 <= i < ca.len() && ca[i] == m;
            let j = choose|j: int|
                #![trigger b[j]]
                0 <= j < b.len() && b[j].0 == a[i].0 && canonical(b[j].1) == canonical(a[i].1);
            assert(a[i].0 == m.0);
            assert(cb[j] == m);
        }
        if cb.contains(m) {
            let i = choose|i: int| 0 <= i < cb.len() && cb[i] == m;
            let j = choose|j: int|
                #![trigger a[j]]
                0 <= j < a.len() && a[j].0 == b[i].0 && canonical(a[j].1) == canonical(b[i].1);
            assert(b[i].0 == m.0);
            assert(ca[j] == m);
        }
        assert(key_sorted(ca).contains(m) <==> ca.contains(m));
        assert(key_sorted(cb).contains(m) <==> cb.contains(m));
    }
    lemma_order_is_unique(key_sorted(ca), key_sorted(cb));
}

} // verus!
