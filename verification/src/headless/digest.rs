//! Digests of the guest's state, component by component.

use serde_json::Value;
use sha2::{Digest, Sha256};
use vstd::prelude::*;

use crate::headless::json::{
    canonical, canonical_items, canonical_members, canonicalize, distinct_keys,
    key_sorted, lemma_canonical_items, lemma_canonical_members, lemma_key_sorted,
    lemma_object_model, lemma_sorted_distinct, law_member_order_does_not_matter, members_covered,
    members_model, JsonModel, JsonValue,
};
use crate::headless::media::{
    ids_valid, image_at, lemma_absent_id, lemma_shorter_ids, media_model, Media,
};
use crate::util::text::{
    characters, decimal, lemma_decimal, lemma_text_total, lemma_text_transitive, push_decimal,
    same_text, text_before, text_less,
};

verus! {

/// A JSON tree of `serde_json`.
#[verifier::external_type_specification]
#[verifier::external_body]
pub struct ExValue(Value);

/// What a JSON tree of `serde_json` says.
pub uninterp spec fn value_json(value: Value) -> JsonModel;

/// The JSON text that `serde_json::to_vec` writes of a tree.
pub uninterp spec fn json_text(value: JsonModel) -> Seq<u8>;

/// What `Sha256::digest` makes of some bytes.
pub uninterp spec fn sha256_digest(data: Seq<u8>) -> Seq<u8>;

/// Whether no object in a tree has a key twice.
pub open spec fn well_keyed(value: JsonModel) -> bool
    decreases value,
{
    match value {
        JsonModel::Array(items) => forall|i: int|
            0 <= i < items.len() ==> well_keyed(#[trigger] items[i]),
        JsonModel::Object(members) => {
            &&& distinct_keys(members)
            &&& forall|i: int| 0 <= i < members.len() ==> well_keyed((#[trigger] members[i]).1)
        },
        _ => true,
    }
}

/// The constructors of `serde_json::Value` build the tree that says the same. A key that comes
/// twice would be merged, so there must be none.
#[verifier::external_body]
fn serde_value(value: &JsonValue) -> (tree: Value)
    requires
        well_keyed(value@),
    ensures
        value_json(tree) == value@,
{
    match value {
        JsonValue::Null => Value::Null,
        JsonValue::Bool(b) => Value::Bool(*b),
        JsonValue::Unsigned(n) => Value::from(*n),
        JsonValue::Signed(n) => Value::from(*n),
        JsonValue::Text(text) => Value::String(text.clone()),
        JsonValue::Array(items) => Value::Array(items.iter().map(serde_value).collect()),
        JsonValue::Object(members) => Value::Object(
            members.iter().map(|(key, item)| (key.clone(), serde_value(item))).collect(),
        ),
    }
}

/// `serde_json::to_vec` writes a tree as JSON text, which depends on what the tree says alone.
/// Writing a tree to memory does not fail.
#[verifier::external_body]
fn value_text(tree: &Value) -> (text: Vec<u8>)
    ensures
        text@ == json_text(value_json(*tree)),
{
    serde_json::to_vec(tree).unwrap_or_default()
}

/// `Sha256::digest` makes a digest of 32 bytes, which depends on the bytes alone.
#[verifier::external_body]
fn sha256(data: &[u8]) -> (digest: Vec<u8>)
    ensures
        digest@ == sha256_digest(data@),
        digest@.len() == 32,
{
    Sha256::digest(data).to_vec()
}

/// The character of a hexadecimal digit.
pub open spec fn hex_digit(value: u8) -> char {
    if value < 10 {
        (48 + value) as char
    } else {
        (87 + value) as char
    }
}

/// Bytes in hexadecimal notation, two small digits for each.
pub open spec fn hex_text(bytes: Seq<u8>) -> Seq<char> {
    Seq::new(
        2 * bytes.len(),
        |i: int|
            hex_digit(
                if i % 2 == 0 {
                    bytes[i / 2] / 16
                } else {
                    bytes[i / 2] % 16
                },
            ),
    )
}

/// `hex::encode` writes bytes in hexadecimal notation, the high digit of each first, with small
/// letters.
#[verifier::external_body]
fn hex_encode(bytes: &[u8]) -> (text: String)
    requires
        2 * bytes@.len() <= usize::MAX,
    ensures
        text@ == hex_text(bytes@),
{
    hex::encode(bytes)
}

/// The digest of some bytes, in hexadecimal notation.
pub open spec fn bytes_digest(data: Seq<u8>) -> Seq<char> {
    hex_text(sha256_digest(data))
}

/// The digest of a component: of the JSON text of its canonical form.
pub open spec fn component_digest(value: JsonModel) -> Seq<char> {
    bytes_digest(json_text(canonical(value)))
}

/// Make the digest of some bytes.
fn digest_bytes(data: &[u8]) -> (digest: String)
    ensures
        digest@ == bytes_digest(data@),
{
    let hash = sha256(data);
    hex_encode(hash.as_slice())
}

/// A tree keeps distinct keys when it is brought into canonical form.
proof fn lemma_canonical_well_keyed(value: JsonModel)
    requires
        well_keyed(value),
    ensures
        well_keyed(canonical(value)),
    decreases value,
{
    match value {
        JsonModel::Array(items) => {
            lemma_canonical_items(items);
            assert forall|i: int| 0 <= i < items.len() implies well_keyed(
                #[trigger] canonical_items(items)[i],
            ) by {
                lemma_canonical_well_keyed(items[i]);
            }
        },
        JsonModel::Object(members) => {
            let values = canonical_members(members);
            let sorted = key_sorted(values);
            lemma_canonical_members(members);
            assert(distinct_keys(values)) by {
                assert forall|i: int, j: int|
                    0 <= i < values.len() && 0 <= j < values.len() && i != j implies (
                #[trigger] values[i]).0 != (#[trigger] values[j]).0 by {
                    assert(members[i].0 != members[j].0);
                }
            }
            lemma_key_sorted(values);
            lemma_sorted_distinct(values);
            assert forall|i: int| 0 <= i < sorted.len() implies well_keyed(
                (#[trigger] sorted[i]).1,
            ) by {
                assert(sorted.contains(sorted[i]));
                let k = choose|k: int| 0 <= k < values.len() && values[k] == sorted[i];
                assert(values[k] == (members[k].0, canonical(members[k].1)));
                lemma_canonical_well_keyed(members[k].1);
            }
        },
        _ => {},
    }
}

/// Make the digest of a component.
fn digest_component(value: JsonValue) -> (digest: String)
    requires
        well_keyed(value@),
    ensures
        digest@ == component_digest(value@),
{
    let mut value = value;
    proof {
        lemma_canonical_well_keyed(value@);
    }
    canonicalize(&mut value);
    let tree = serde_value(&value);
    let text = value_text(&tree);
    digest_bytes(text.as_slice())
}

/// Digests by name, in the order of the names.
#[derive(Debug, Clone, PartialEq, Eq)]
pub struct Digests {
    pub entries: Vec<(String, String)>,
}

/// Where a name stands among entries.
pub open spec fn entry_index(entries: Seq<(String, String)>, name: Seq<char>) -> Option<int>
    decreases entries.len(),
{
    if entries.len() == 0 {
        None
    } else if entries.last().0@ == name {
        Some(entries.len() - 1)
    } else {
        entry_index(entries.drop_last(), name)
    }
}

impl Digests {
    /// Whether the names are in order, each once.
    pub open spec fn well_formed(self) -> bool {
        forall|i: int, j: int|
            0 <= i < j < self.entries@.len() ==> text_before(
                (#[trigger] self.entries@[i]).0@,
                (#[trigger] self.entries@[j]).0@,
            )
    }

    /// The digest with a name.
    pub open spec fn digest_of(self, name: Seq<char>) -> Option<Seq<char>> {
        match entry_index(self.entries@, name) {
            Some(i) => Some(self.entries@[i].1@),
            None => None,
        }
    }

    /// No digests.
    pub fn new() -> (digests: Self)
        ensures
            digests.well_formed(),
            forall|name: Seq<char>| #[trigger] digests.digest_of(name) is None,
    {
        Digests { entries: Vec::new() }
    }

    /// The digest with a name.
    pub fn get(&self, name: &str) -> (digest: Option<&str>)
        ensures
            match self.digest_of(name@) {
                Some(found) => digest matches Some(text) && text@ == found,
                None => digest is None,
            },
    {
        let mut i: usize = self.entries.len();
        assert(self.entries@.take(i as int) =~= self.entries@);
        while i > 0
            invariant
                i <= self.entries@.len(),
                entry_index(self.entries@, name@) == entry_index(
                    self.entries@.take(i as int),
                    name@,
                ),
            decreases i,
        {
            let entry = &self.entries[i - 1];
            assert(self.entries@.take(i as int).drop_last() =~= self.entries@.take(i - 1));
            let chars = characters(entry.0.as_str());
            if same_text(&chars, name) {
                return Some(entry.1.as_str());
            }
            i -= 1;
        }
        None
    }

    /// Whether there is a digest with a name.
    pub fn contains_key(&self, name: &str) -> (found: bool)
        ensures
            found == (self.digest_of(name@) is Some),
    {
        self.get(name).is_some()
    }

    /// Add a digest, in place of one with the same name.
    pub fn insert(&mut self, name: String, digest: String)
        requires
            old(self).well_formed(),
        ensures
            final(self).well_formed(),
            final(self).digest_of(name@) == Some(digest@),
            forall|other: Seq<char>|
                other != name@ ==> #[trigger] final(self).digest_of(other) == old(self).digest_of(
                    other,
                ),
    {
        let ghost before = self.entries@;
        let ghost key = name@;
        let mut place: usize = 0;
        while place < self.entries.len() && text_less(
            self.entries[place].0.as_str(),
            name.as_str(),
        )
            invariant
                place <= self.entries@.len(),
                self.entries@ == before,
                key == name@,
                forall|i: int| 0 <= i < place ==> text_before((#[trigger] before[i]).0@, key),
            decreases self.entries@.len() - place,
        {
            place += 1;
        }
        if place < self.entries.len() {
            let chars = characters(self.entries[place].0.as_str());
            if same_text(&chars, name.as_str()) {
                let ghost text = digest@;
                self.entries.set(place, (name, digest));
                proof {
                    lemma_sorted_index(before, place as int);
                    lemma_sorted_index(self.entries@, place as int);
                    assert forall|other: Seq<char>| other != key implies #[trigger] self.digest_of(
                        other,
                    ) == old(self).digest_of(other) by {
                        lemma_replaced_entry(before, self.entries@, place as int, other);
                    }
                }
                return;
            }
        }
        self.entries.insert(place, (name, digest));
        proof {
            let after = self.entries@;
            assert forall|i: int, j: int| 0 <= i < j < after.len() implies text_before(
                (#[trigger] after[i]).0@,
                (#[trigger] after[j]).0@,
            ) by {
                if place < before.len() {
                    lemma_text_total(before[place as int].0@, key);
                }
                if i < place && j == place {
                    assert(after[i] == before[i]);
                } else if i == place && j > place {
                    assert(after[j] == before[j - 1]);
                    if j - 1 > place {
                        assert(text_before(before[place as int].0@, before[j - 1].0@));
                        lemma_text_transitive(key, before[place as int].0@, before[j - 1].0@);
                    }
                } else {
                    let a = if i < place {
                        i
                    } else {
                        i - 1
                    };
                    let b = if j < place {
                        j
                    } else {
                        j - 1
                    };
                    assert(after[i] == before[a] && after[j] == before[b]);
                }
            }
            lemma_sorted_index(after, place as int);
            assert forall|other: Seq<char>| other != key implies #[trigger] self.digest_of(other)
                == old(self).digest_of(other) by {
                lemma_added_entry(before, after, place as int, other);
            }
        }
    }
}

/// An entry among sorted ones is found by its name.
pub proof fn lemma_sorted_index(entries: Seq<(String, String)>, at: int)
    requires
        0 <= at < entries.len(),
        forall|i: int, j: int|
            0 <= i < j < entries.len() ==> text_before(
                (#[trigger] entries[i]).0@,
                (#[trigger] entries[j]).0@,
            ),
    ensures
        entry_index(entries, entries[at].0@) == Some(at),
    decreases entries.len(),
{
    if at < entries.len() - 1 {
        let last = entries.len() - 1;
        assert(text_before(entries[at].0@, entries[last].0@));
        lemma_text_total(entries[at].0@, entries[at].0@);
        let shorter = entries.drop_last();
        assert forall|i: int, j: int| 0 <= i < j < shorter.len() implies text_before(
            (#[trigger] shorter[i]).0@,
            (#[trigger] shorter[j]).0@,
        ) by {
            assert(shorter[i] == entries[i] && shorter[j] == entries[j]);
        }
        lemma_sorted_index(shorter, at);
    }
}

/// Replacing an entry by one with the same name keeps the others.
proof fn lemma_replaced_entry(
    before: Seq<(String, String)>,
    after: Seq<(String, String)>,
    at: int,
    name: Seq<char>,
)
    requires
        0 <= at < before.len(),
        after.len() == before.len(),
        after[at].0@ == before[at].0@,
        before[at].0@ != name,
        forall|i: int| 0 <= i < before.len() && i != at ==> #[trigger] after[i] == before[i],
    ensures
        entry_index(after, name) == entry_index(before, name),
        entry_index(after, name) matches Some(i) ==> 0 <= i < before.len() && i != at,
    decreases before.len(),
{
    if before.last().0@ != name {
        let (a, b) = (before.drop_last(), after.drop_last());
        if at < a.len() {
            lemma_replaced_entry(a, b, at, name);
        } else {
            assert(a =~= b);
            lemma_index_in_range(a, name);
        }
    }
}

/// Adding an entry with another name keeps the digests.
proof fn lemma_added_entry(
    before: Seq<(String, String)>,
    after: Seq<(String, String)>,
    at: int,
    name: Seq<char>,
)
    requires
        0 <= at <= before.len(),
        after == before.insert(at, after[at]),
        after[at].0@ != name,
    ensures
        match (entry_index(before, name), entry_index(after, name)) {
            (Some(i), Some(j)) => 0 <= i < before.len() && 0 <= j < after.len() && before[i]
                == after[j],
            (None, None) => true,
            _ => false,
        },
    decreases before.len(),
{
    if at == before.len() {
        assert(after.drop_last() =~= before);
        lemma_index_in_range(before, name);
    } else if before.last().0@ != name {
        let (a, b) = (before.drop_last(), after.drop_last());
        assert(b =~= a.insert(at, b[at]));
        lemma_added_entry(a, b, at, name);
    }
}

/// A name that is found is found at an entry.
pub proof fn lemma_index_in_range(entries: Seq<(String, String)>, name: Seq<char>)
    ensures
        entry_index(entries, name) matches Some(i) ==> 0 <= i < entries.len(),
    decreases entries.len(),
{
    if entries.len() > 0 {
        lemma_index_in_range(entries.drop_last(), name);
    }
}

/// Where a key stands among members.
pub open spec fn key_index(members: Seq<(Seq<char>, JsonModel)>, key: Seq<char>) -> Option<int>
    decreases members.len(),
{
    if members.len() == 0 {
        None
    } else if members.last().0 == key {
        Some(members.len() - 1)
    } else {
        key_index(members.drop_last(), key)
    }
}

/// The value of the member with a key.
pub open spec fn member_value(members: Seq<(Seq<char>, JsonModel)>, key: Seq<char>) -> Option<
    JsonModel,
> {
    match key_index(members, key) {
        Some(i) => Some(members[i].1),
        None => None,
    }
}

/// The members without the one with a key.
pub open spec fn taken(members: Seq<(Seq<char>, JsonModel)>, key: Seq<char>) -> Seq<
    (Seq<char>, JsonModel),
> {
    match key_index(members, key) {
        Some(i) => members.remove(i),
        None => members,
    }
}

/// A key that is found is found at a member that has it.
pub proof fn lemma_key_index(members: Seq<(Seq<char>, JsonModel)>, key: Seq<char>)
    ensures
        match key_index(members, key) {
            Some(i) => 0 <= i < members.len() && members[i].0 == key,
            None => forall|i: int| 0 <= i < members.len() ==> (#[trigger] members[i]).0 != key,
        },
    decreases members.len(),
{
    if members.len() > 0 {
        let shorter = members.drop_last();
        lemma_key_index(shorter, key);
        if key_index(members, key) is None {
            assert forall|i: int| 0 <= i < members.len() implies (#[trigger] members[i]).0
                != key by {
                if i < shorter.len() {
                    assert(shorter[i] == members[i]);
                }
            }
        }
    }
}

/// Taking a member out keeps the values of the others and the keys distinct.
pub proof fn lemma_taken(members: Seq<(Seq<char>, JsonModel)>, key: Seq<char>)
    requires
        well_keyed(JsonModel::Object(members)),
    ensures
        well_keyed(JsonModel::Object(taken(members, key))),
        member_value(members, key) matches Some(value) ==> well_keyed(value),
        forall|other: Seq<char>|
            other != key ==> #[trigger] member_value(taken(members, key), other) == member_value(
                members,
                other,
            ),
{
    lemma_key_index(members, key);
    let after = taken(members, key);
    if let Some(at) = key_index(members, key) {
        assert forall|i: int, j: int|
            0 <= i < after.len() && 0 <= j < after.len() && i != j implies (#[trigger] after[i]).0
            != (#[trigger] after[j]).0 by {
            let a = if i < at {
                i
            } else {
                i + 1
            };
            let b = if j < at {
                j
            } else {
                j + 1
            };
            assert(after[i] == members[a] && after[j] == members[b]);
        }
        assert forall|i: int| 0 <= i < after.len() implies well_keyed((#[trigger] after[i]).1) by {
            let a = if i < at {
                i
            } else {
                i + 1
            };
            assert(after[i] == members[a]);
        }
        assert forall|other: Seq<char>| other != key implies #[trigger] member_value(after, other)
            == member_value(members, other) by {
            lemma_key_index(members, other);
            lemma_key_index(after, other);
            match (key_index(members, other), key_index(after, other)) {
                (Some(i), Some(j)) => {
                    let b = if j < at {
                        j
                    } else {
                        j + 1
                    };
                    assert(after[j] == members[b]);
                    if b != i {
                        assert(members[b].0 != members[i].0);
                    }
                },
                (Some(i), None) => {
                    let a = if i < at {
                        i
                    } else {
                        i - 1
                    };
                    assert(after[a] == members[i]);
                },
                (None, Some(j)) => {
                    let b = if j < at {
                        j
                    } else {
                        j + 1
                    };
                    assert(after[j] == members[b]);
                },
                (None, None) => {},
            }
        }
    }
}

/// Take the member with a key out of an object.
fn take_member(members: &mut Vec<(String, JsonValue)>, key: &str) -> (value: Option<JsonValue>)
    ensures
        members_model(final(members)@) == taken(members_model(old(members)@), key@),
        match member_value(members_model(old(members)@), key@) {
            Some(model) => value matches Some(found) && found@ == model,
            None => value is None,
        },
{
    let ghost model = members_model(members@);
    let mut i: usize = members.len();
    assert(model.take(i as int) =~= model);
    while i > 0
        invariant
            i <= members@.len(),
            members@ == old(members)@,
            model == members_model(members@),
            key_index(model, key@) == key_index(model.take(i as int), key@),
        decreases i,
    {
        assert(model.take(i as int).drop_last() =~= model.take(i - 1));
        let chars = characters(members[i - 1].0.as_str());
        if same_text(&chars, key) {
            let (_, value) = members.remove(i - 1);
            assert(members_model(members@) =~= model.remove(i - 1));
            return Some(value);
        }
        i -= 1;
    }
    None
}

/// How many components the bus has digests of.
pub const COMPONENTS: usize = 7;

/// The name of a component that has its own digest.
pub open spec fn component_name(index: int) -> Seq<char> {
    if index == 0 {
        "ram"@
    } else if index == 1 {
        "rom"@
    } else if index == 2 {
        "swim"@
    } else if index == 3 {
        "via"@
    } else if index == 4 {
        "scc"@
    } else if index == 5 {
        "scsi"@
    } else {
        "video"@
    }
}

/// The name of a component that has its own digest.
fn name_of_component(index: usize) -> (name: &'static str)
    requires
        index < COMPONENTS,
    ensures
        name@ == component_name(index as int),
{
    match index {
        0 => "ram",
        1 => "rom",
        2 => "swim",
        3 => "via",
        4 => "scc",
        5 => "scsi",
        _ => "video",
    }
}

/// The bus without its first components.
pub open spec fn bus_without(bus: Seq<(Seq<char>, JsonModel)>, count: nat) -> Seq<
    (Seq<char>, JsonModel),
>
    decreases count,
{
    if count == 0 {
        bus
    } else {
        taken(bus_without(bus, (count - 1) as nat), component_name(count - 1))
    }
}

/// The digest with a name among those of the first components of a bus.
pub open spec fn components_digest(
    bus: Seq<(Seq<char>, JsonModel)>,
    count: nat,
    name: Seq<char>,
) -> Option<Seq<char>>
    decreases count,
{
    if count == 0 {
        None
    } else if name == component_name(count - 1) {
        match member_value(bus, name) {
            Some(value) => Some(component_digest(value)),
            None => components_digest(bus, (count - 1) as nat, name),
        }
    } else {
        components_digest(bus, (count - 1) as nat, name)
    }
}

/// The name of the digest of a block image.
pub open spec fn disk_name(id: usize) -> Seq<char> {
    "scsi_disk_"@ + decimal(id as nat)
}

/// The digest with a name among those of the block images.
pub open spec fn disks_digest(media: Seq<(usize, Seq<u8>)>, name: Seq<char>) -> Option<Seq<char>>
    decreases media.len(),
{
    if media.len() == 0 {
        None
    } else if disk_name(media.last().0) == name {
        Some(bytes_digest(media.last().1))
    } else {
        disks_digest(media.drop_last(), name)
    }
}

/// Whether a snapshot is of a machine: an object with one variant, whose value is the processor,
/// with the bus as one of its members.
pub open spec fn machine_shaped(snapshot: JsonModel) -> bool {
    &&& snapshot matches JsonModel::Object(variants)
    &&& variants.len() > 0
    &&& variants[0].1 matches JsonModel::Object(cpu)
    &&& member_value(cpu, "bus"@) matches Some(JsonModel::Object(_))
}

/// The processor's members in a snapshot, without the debugger's policy, which has no guest
/// meaning.
pub open spec fn guest_cpu(snapshot: JsonModel) -> Seq<(Seq<char>, JsonModel)> {
    taken(taken(snapshot->Object_0[0].1->Object_0, "breakpoints"@), "step_over_addr"@)
}

/// The bus's members in a snapshot.
pub open spec fn guest_bus(snapshot: JsonModel) -> Seq<(Seq<char>, JsonModel)> {
    member_value(guest_cpu(snapshot), "bus"@)->0->Object_0
}

/// The digest with a name of a guest's state.
pub open spec fn guest_digest(
    snapshot: JsonModel,
    cycle_offset: u64,
    media: Seq<(usize, Seq<u8>)>,
    name: Seq<char>,
) -> Option<Seq<char>> {
    if disks_digest(media, name) is Some {
        disks_digest(media, name)
    } else if name == "bus"@ {
        Some(
            component_digest(
                JsonModel::Object(bus_without(guest_bus(snapshot), COMPONENTS as nat)),
            ),
        )
    } else if name == "cycle_offset"@ && cycle_offset != 0 {
        Some(component_digest(JsonModel::Number(cycle_offset as int)))
    } else if name == "cpu"@ {
        Some(component_digest(JsonModel::Object(taken(guest_cpu(snapshot), "bus"@))))
    } else {
        components_digest(guest_bus(snapshot), COMPONENTS as nat, name)
    }
}

/// The components are no members of the rest of the bus, and the other members are.
proof fn lemma_bus_without(bus: Seq<(Seq<char>, JsonModel)>, count: nat)
    requires
        well_keyed(JsonModel::Object(bus)),
        count < COMPONENTS,
    ensures
        well_keyed(JsonModel::Object(bus_without(bus, count))),
        member_value(bus_without(bus, count), component_name(count as int)) == member_value(
            bus,
            component_name(count as int),
        ),
{
    lemma_bus_member(bus, count, component_name(count as int));
    lemma_component_names();
}

/// A member that is none of the first components stays.
pub proof fn lemma_bus_member(bus: Seq<(Seq<char>, JsonModel)>, count: nat, name: Seq<char>)
    requires
        well_keyed(JsonModel::Object(bus)),
    ensures
        well_keyed(JsonModel::Object(bus_without(bus, count))),
        (forall|k: int| 0 <= k < count ==> #[trigger] component_name(k) != name) ==> member_value(
            bus_without(bus, count),
            name,
        ) == member_value(bus, name),
    decreases count,
{
    if count > 0 {
        let before = (count - 1) as nat;
        lemma_bus_member(bus, before, name);
        lemma_taken(bus_without(bus, before), component_name(before as int));
        let _ = component_name(count - 1);
    }
}

/// The components have different names.
pub proof fn lemma_component_names()
    ensures
        forall|i: int, j: int|
            0 <= i < j < COMPONENTS ==> #[trigger] component_name(i) != #[trigger] component_name(
                j,
            ),
{
    reveal_strlit("ram");
    reveal_strlit("rom");
    reveal_strlit("swim");
    reveal_strlit("via");
    reveal_strlit("scc");
    reveal_strlit("scsi");
    reveal_strlit("video");
    assert forall|i: int, j: int| 0 <= i < j < COMPONENTS implies #[trigger] component_name(i)
        != #[trigger] component_name(j) by {
        let (a, b) = (component_name(i), component_name(j));
        if a == b {
            assert(a.len() == b.len() && a[0] == b[0] && a[1] == b[1]);
        }
    }
}

/// Make the digests of a guest's state from a snapshot of it. JSON objects are sorted before
/// hashing.
pub fn digest_guest(snapshot: JsonValue, cycle_offset: u64, media: &Media) -> (digests: Digests)
    requires
        machine_shaped(snapshot@),
        well_keyed(snapshot@),
    ensures
        digests.well_formed(),
        forall|name: Seq<char>| #[trigger]
            digests.digest_of(name) == guest_digest(
                snapshot@,
                cycle_offset,
                media_model(media@),
                name,
            ),
{
    let ghost tree = snapshot@;
    let mut digests = Digests::new();
    let JsonValue::Object(mut variants) = snapshot else {
        return digests;
    };
    proof {
        lemma_object_model(variants);
    }
    let (_, first) = variants.remove(0);
    let JsonValue::Object(mut cpu) = first else {
        return digests;
    };
    proof {
        lemma_object_model(cpu);
        assert(JsonModel::Object(members_model(cpu@)) == tree->Object_0[0].1);
        lemma_taken(members_model(cpu@), "breakpoints"@);
        lemma_taken(taken(members_model(cpu@), "breakpoints"@), "step_over_addr"@);
        lemma_taken(guest_cpu(tree), "bus"@);
        reveal_strlit("bus");
        reveal_strlit("breakpoints");
        reveal_strlit("step_over_addr");
        assert("bus"@.len() != "breakpoints"@.len() && "bus"@.len() != "step_over_addr"@.len());
        assert(member_value(guest_cpu(tree), "bus"@) == member_value(
            tree->Object_0[0].1->Object_0,
            "bus"@,
        ));
    }
    let _ = take_member(&mut cpu, "breakpoints");
    let _ = take_member(&mut cpu, "step_over_addr");
    let Some(JsonValue::Object(mut bus)) = take_member(&mut cpu, "bus") else {
        return digests;
    };
    proof {
        lemma_object_model(bus);
    }
    let ghost whole = members_model(bus@);
    assert(whole == guest_bus(tree));
    let mut i: usize = 0;
    while i < COMPONENTS
        invariant
            i <= COMPONENTS,
            well_keyed(JsonModel::Object(whole)),
            members_model(bus@) == bus_without(whole, i as nat),
            digests.well_formed(),
            forall|name: Seq<char>| #[trigger]
                digests.digest_of(name) == components_digest(whole, i as nat, name),
        decreases COMPONENTS - i,
    {
        let name = name_of_component(i);
        proof {
            lemma_bus_without(whole, i as nat);
            lemma_taken(bus_without(whole, i as nat), name@);
        }
        if let Some(value) = take_member(&mut bus, name) {
            digests.insert(name.to_owned(), digest_component(value));
        }
        i += 1;
    }
    proof {
        lemma_bus_member(whole, COMPONENTS as nat, Seq::empty());
        lemma_object_model(cpu);
        lemma_object_model(bus);
    }
    digests.insert("cpu".to_owned(), digest_component(JsonValue::Object(cpu)));
    if cycle_offset != 0 {
        digests.insert(
            "cycle_offset".to_owned(),
            digest_component(JsonValue::Unsigned(cycle_offset)),
        );
    }
    digests.insert("bus".to_owned(), digest_component(JsonValue::Object(bus)));
    let ghost model = media_model(media@);
    let ghost guest = digests;
    let mut k: usize = 0;
    assert(model.take(0) =~= Seq::empty());
    while k < media.len()
        invariant
            k <= media@.len(),
            model == media_model(media@),
            digests.well_formed(),
            forall|name: Seq<char>| #[trigger]
                digests.digest_of(name) == match disks_digest(model.take(k as int), name) {
                    Some(digest) => Some(digest),
                    None => guest.digest_of(name),
                },
        decreases media@.len() - k,
    {
        let mut name = "scsi_disk_".to_owned();
        push_decimal(&mut name, media[k].0 as u64);
        let digest = digest_bytes(media[k].1.bytes.as_slice());
        assert(model.take(k + 1).drop_last() =~= model.take(k as int));
        assert(model.take(k + 1).last() == model[k as int]);
        digests.insert(name, digest);
        k += 1;
    }
    assert(model.take(k as int) =~= model);
    digests
}

/// A key that has been taken out is gone.
pub proof fn lemma_taken_is_gone(members: Seq<(Seq<char>, JsonModel)>, key: Seq<char>)
    requires
        distinct_keys(members),
    ensures
        member_value(taken(members, key), key) is None,
{
    lemma_key_index(members, key);
    let after = taken(members, key);
    lemma_key_index(after, key);
    if let Some(at) = key_index(members, key) {
        if let Some(j) = key_index(after, key) {
            let b = if j < at {
                j
            } else {
                j + 1
            };
            assert(after[j] == members[b]);
            assert(members[b].0 != members[at].0);
        }
    }
}

/// Objects that agree on the value of every key have the same canonical form.
proof fn lemma_agreeing_objects(
    a: Seq<(Seq<char>, JsonModel)>,
    b: Seq<(Seq<char>, JsonModel)>,
)
    requires
        distinct_keys(a),
        distinct_keys(b),
        forall|key: Seq<char>| #[trigger] member_value(a, key) == member_value(b, key),
    ensures
        canonical(JsonModel::Object(a)) == canonical(JsonModel::Object(b)),
{
    lemma_agreeing_covered(a, b);
    lemma_agreeing_covered(b, a);
    law_member_order_does_not_matter(a, b);
}

/// Of objects that agree on the value of every key, one covers the other.
proof fn lemma_agreeing_covered(
    a: Seq<(Seq<char>, JsonModel)>,
    b: Seq<(Seq<char>, JsonModel)>,
)
    requires
        distinct_keys(a),
        forall|key: Seq<char>| #[trigger] member_value(a, key) == member_value(b, key),
    ensures
        members_covered(a, b),
{
    assert forall|i: int|
        #![trigger a[i]]
        0 <= i < a.len() implies exists|j: int|
        #![trigger b[j]]
        0 <= j < b.len() && b[j].0 == a[i].0 && canonical(b[j].1) == canonical(a[i].1) by {
        let key = a[i].0;
        lemma_key_index(a, key);
        lemma_key_index(b, key);
        let n = key_index(a, key)->0;
        if n != i {
            assert(a[n].0 != a[i].0);
        }
        assert(member_value(a, key) == member_value(b, key));
        let j = key_index(b, key)->0;
        assert(b[j].0 == a[i].0);
    }
}

/// Whether two snapshots of machines differ in the debugger's policy alone: in the breakpoints and
/// in the address to step over.
pub open spec fn same_evidence(a: JsonModel, b: JsonModel) -> bool {
    &&& machine_shaped(a)
    &&& machine_shaped(b)
    &&& well_keyed(a)
    &&& well_keyed(b)
    &&& forall|key: Seq<char>|
        key != "breakpoints"@ && key != "step_over_addr"@ ==> #[trigger] member_value(
            a->Object_0[0].1->Object_0,
            key,
        ) == member_value(b->Object_0[0].1->Object_0, key)
}

/// The debugger's policy does not change a digest.
pub proof fn law_debugger_policy_does_not_matter(
    a: JsonModel,
    b: JsonModel,
    cycle_offset: u64,
    media: Seq<(usize, Seq<u8>)>,
    name: Seq<char>,
)
    requires
        same_evidence(a, b),
    ensures
        guest_digest(a, cycle_offset, media, name) == guest_digest(b, cycle_offset, media, name),
{
    let ca = a->Object_0[0].1->Object_0;
    let cb = b->Object_0[0].1->Object_0;
    assert(well_keyed(a->Object_0[0].1) && well_keyed(b->Object_0[0].1));
    reveal_strlit("bus");
    reveal_strlit("breakpoints");
    reveal_strlit("step_over_addr");
    assert("bus"@.len() != "breakpoints"@.len() && "bus"@.len() != "step_over_addr"@.len());
    assert("breakpoints"@.len() != "step_over_addr"@.len());
    lemma_policy_taken(ca);
    lemma_policy_taken(cb);
    let (ga, gb) = (guest_cpu(a), guest_cpu(b));
    assert forall|key: Seq<char>| #[trigger] member_value(ga, key) == member_value(gb, key) by {
        if key != "breakpoints"@ && key != "step_over_addr"@ {
            assert(member_value(ca, key) == member_value(cb, key));
        }
    }
    assert(member_value(ga, "bus"@) == member_value(gb, "bus"@));
    lemma_taken(ga, "bus"@);
    lemma_taken(gb, "bus"@);
    lemma_taken_is_gone(ga, "bus"@);
    lemma_taken_is_gone(gb, "bus"@);
    let (ra, rb) = (taken(ga, "bus"@), taken(gb, "bus"@));
    assert forall|key: Seq<char>| #[trigger] member_value(ra, key) == member_value(rb, key) by {
        if key != "bus"@ {
            assert(member_value(ga, key) == member_value(gb, key));
        }
    }
    lemma_agreeing_objects(ra, rb);
}

/// What is left of a processor without the debugger's policy.
proof fn lemma_policy_taken(cpu: Seq<(Seq<char>, JsonModel)>)
    requires
        well_keyed(JsonModel::Object(cpu)),
        "breakpoints"@ != "step_over_addr"@,
    ensures
        ({
            let rest = taken(taken(cpu, "breakpoints"@), "step_over_addr"@);
            &&& well_keyed(JsonModel::Object(rest))
            &&& member_value(rest, "breakpoints"@) is None
            &&& member_value(rest, "step_over_addr"@) is None
            &&& forall|key: Seq<char>|
                key != "breakpoints"@ && key != "step_over_addr"@ ==> #[trigger] member_value(
                    rest,
                    key,
                ) == member_value(cpu, key)
        }),
{
    let once = taken(cpu, "breakpoints"@);
    lemma_taken(cpu, "breakpoints"@);
    lemma_taken_is_gone(cpu, "breakpoints"@);
    lemma_taken(once, "step_over_addr"@);
    lemma_taken_is_gone(once, "step_over_addr"@);
    let rest = taken(once, "step_over_addr"@);
    assert(member_value(rest, "breakpoints"@) == member_value(once, "breakpoints"@));
    assert forall|key: Seq<char>|
        key != "breakpoints"@ && key != "step_over_addr"@ implies #[trigger] member_value(rest, key)
        == member_value(cpu, key) by {
        assert(member_value(once, key) == member_value(cpu, key));
    }
}

/// Every attached image has a digest of its own, under the name of its ID, and it is the digest of
/// what the image holds.
pub proof fn law_disk_digest_is_of_the_image(
    snapshot: JsonModel,
    cycle_offset: u64,
    media: Seq<(usize, Seq<u8>)>,
    id: usize,
)
    requires
        ids_valid(media),
        image_at(media, id) is Some,
    ensures
        guest_digest(snapshot, cycle_offset, media, disk_name(id)) == Some(
            bytes_digest(image_at(media, id)->0),
        ),
{
    lemma_disks_digest(media, id);
}

/// There is a digest under the name of an ID exactly where an image is attached at it.
pub proof fn law_disk_digest_shows_the_attachment(
    snapshot: JsonModel,
    cycle_offset: u64,
    media: Seq<(usize, Seq<u8>)>,
    id: usize,
)
    requires
        ids_valid(media),
    ensures
        guest_digest(snapshot, cycle_offset, media, disk_name(id)) is Some <==> image_at(media, id)
            is Some,
{
    if image_at(media, id) is Some {
        lemma_disks_digest(media, id);
    } else {
        lemma_no_disk_digest(media, id);
        lemma_disk_name_stands_apart(id);
        lemma_no_component_digest(guest_bus(snapshot), COMPONENTS as nat, id);
    }
}

/// No image, no digest.
proof fn lemma_no_disk_digest(media: Seq<(usize, Seq<u8>)>, id: usize)
    requires
        image_at(media, id) is None,
    ensures
        disks_digest(media, disk_name(id)) is None,
    decreases media.len(),
{
    if media.len() > 0 {
        lemma_disk_names(media.last().0, id);
        lemma_no_disk_digest(media.drop_last(), id);
    }
}

/// No component has the name of an image.
proof fn lemma_no_component_digest(bus: Seq<(Seq<char>, JsonModel)>, count: nat, id: usize)
    requires
        count <= COMPONENTS,
    ensures
        components_digest(bus, count, disk_name(id)) is None,
    decreases count,
{
    if count > 0 {
        lemma_disk_name_stands_apart(id);
        lemma_no_component_digest(bus, (count - 1) as nat, id);
    }
}

/// The names of images are those of nothing else.
pub proof fn lemma_disk_name_stands_apart(id: usize)
    ensures
        disk_name(id) != "cpu"@,
        disk_name(id) != "bus"@,
        disk_name(id) != "cycle_offset"@,
        forall|k: int| 0 <= k < COMPONENTS ==> #[trigger] component_name(k) != disk_name(id),
{
    reveal_strlit("scsi_disk_");
    reveal_strlit("cpu");
    reveal_strlit("bus");
    reveal_strlit("cycle_offset");
    reveal_strlit("ram");
    reveal_strlit("rom");
    reveal_strlit("swim");
    reveal_strlit("via");
    reveal_strlit("scc");
    reveal_strlit("scsi");
    reveal_strlit("video");
    lemma_decimal(id as nat);
    let name = disk_name(id);
    assert(name.len() > 10);
    assert(name[0] == 's');
    assert("cycle_offset"@[0] == 'c');
    assert forall|k: int| 0 <= k < COMPONENTS implies #[trigger] component_name(k) != name by {
        assert(component_name(k).len() <= 5);
    }
}

/// The digest of the image at an ID.
pub proof fn lemma_disks_digest(media: Seq<(usize, Seq<u8>)>, id: usize)
    requires
        ids_valid(media),
        image_at(media, id) is Some,
    ensures
        disks_digest(media, disk_name(id)) == Some(bytes_digest(image_at(media, id)->0)),
    decreases media.len(),
{
    let last = media.last();
    lemma_disk_names(last.0, id);
    lemma_shorter_ids(media);
    if last.0 == id {
        lemma_absent_id(media.drop_last(), id);
    } else {
        lemma_disks_digest(media.drop_last(), id);
    }
}

/// Different IDs give different names.
pub proof fn lemma_disk_names(a: usize, b: usize)
    ensures
        disk_name(a) == disk_name(b) ==> a == b,
{
    if disk_name(a) == disk_name(b) {
        let start = "scsi_disk_"@;
        assert(disk_name(a).skip(start.len() as int) =~= decimal(a as nat));
        assert(disk_name(b).skip(start.len() as int) =~= decimal(b as nat));
        lemma_decimal(a as nat);
        lemma_decimal(b as nat);
    }
}

} // verus!
