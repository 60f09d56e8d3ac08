//! What the digests of a guest's state are made of, member by member.

use vstd::prelude::*;

use crate::headless::digest::{
    bytes_digest, bus_without, component_digest, component_name, components_digest, disk_name,
    disks_digest, guest_bus, guest_cpu, guest_digest, hex_digit, hex_text, json_text, key_index,
    lemma_bus_member, lemma_component_names, lemma_disk_name_stands_apart, lemma_disks_digest,
    lemma_index_in_range, lemma_key_index, lemma_sorted_index, lemma_taken, lemma_taken_is_gone,
    member_value, sha256_digest, taken, well_keyed, Digests, COMPONENTS,
};
use crate::headless::json::{
    canonical, canonical_members, distinct_keys, key_sorted, keys_in_order, lemma_canonical_items,
    lemma_canonical_members, lemma_key_sorted, lemma_sorted_distinct, JsonModel,
};
use crate::headless::media::{ids_valid, image_at};
use crate::util::text::{decimal, lemma_text_total, text_before};

verus! {

/// Whether a text comes before another: at the first place where they differ it has the lesser
/// character, or it ends there.
pub open spec fn precedes(a: Seq<char>, b: Seq<char>) -> bool {
    exists|k: int|
        #![trigger a.take(k)]
        0 <= k <= a.len() && k < b.len() && a.take(k) == b.take(k) && (k == a.len() || a[k] < b[k])
}

/// Two ways to say that a text comes before another.
proof fn lemma_precedes(a: Seq<char>, b: Seq<char>)
    requires
        text_before(a, b),
    ensures
        precedes(a, b),
    decreases a.len(),
{
    if a.len() == 0 || a[0] != b[0] {
        assert(a.take(0) =~= b.take(0));
    } else {
        let (c, d) = (a.skip(1), b.skip(1));
        lemma_precedes(c, d);
        let k = choose|k: int|
            #![trigger c.take(k)]
            0 <= k <= c.len() && k < d.len() && c.take(k) == d.take(k) && (k == c.len() || c[k]
                < d[k]);
        assert(a.take(k + 1) =~= b.take(k + 1)) by {
            assert forall|i: int| 0 <= i < k + 1 implies #[trigger] a.take(k + 1)[i] == b.take(
                k + 1,
            )[i] by {
                if i > 0 {
                    assert(c.take(k)[i - 1] == d.take(k)[i - 1]);
                    assert(c[i - 1] == a[i] && d[i - 1] == b[i]);
                }
            }
        }
        if k < c.len() {
            assert(c[k] == a[k + 1] && d[k] == b[k + 1]);
        }
    }
}

/// Whether a tree is another with the members of every object in order of their keys: it has the
/// same elements in the same places, and the same members each once.
pub open spec fn ordered_form(value: JsonModel, form: JsonModel) -> bool
    decreases value, 0int,
{
    match value {
        JsonModel::Array(items) => {
            &&& form matches JsonModel::Array(others)
            &&& others.len() == items.len()
            &&& forall|i: int|
                0 <= i < items.len() ==> ordered_form(#[trigger] items[i], others[i])
        },
        JsonModel::Object(members) => {
            &&& form matches JsonModel::Object(others)
            &&& others.len() == members.len()
            &&& forall|i: int, j: int|
                0 <= i < j < others.len() ==> precedes(
                    (#[trigger] others[i]).0,
                    (#[trigger] others[j]).0,
                )
            &&& forall|i: int|
                0 <= i < members.len() ==> has_form((#[trigger] members[i]).0, members[i].1, others)
        },
        _ => form == value,
    }
}

/// Whether there is a member with a key whose value is the ordered form of another.
pub open spec fn has_form(
    key: Seq<char>,
    value: JsonModel,
    others: Seq<(Seq<char>, JsonModel)>,
) -> bool
    decreases value, 1int,
{
    exists|j: int|
        0 <= j < others.len() && (#[trigger] others[j]).0 == key && ordered_form(value, others[j].1)
}

/// The value of a hexadecimal digit, in small letters.
pub open spec fn digit_value(digit: char) -> int {
    if '0' <= digit <= '9' {
        digit as int - '0' as int
    } else if 'a' <= digit <= 'f' {
        digit as int - 'a' as int + 10
    } else {
        -1
    }
}

/// Whether a text is bytes in hexadecimal notation: two digits each, the more significant first.
pub open spec fn spells(bytes: Seq<u8>, text: Seq<char>) -> bool {
    &&& text.len() == 2 * bytes.len()
    &&& forall|i: int|
        0 <= i < bytes.len() ==> {
            let (high, low) = (digit_value(text[2 * i]), digit_value(text[2 * i + 1]));
            0 <= high && 0 <= low && #[trigger] bytes[i] == 16 * high + low
        }
}

/// Whether a text is the digest of a tree: SHA-256 of the JSON text of its ordered form.
pub open spec fn digest_is(found: Option<Seq<char>>, value: JsonModel) -> bool {
    &&& found matches Some(text)
    &&& exists|form: JsonModel| #[trigger]
        ordered_form(value, form) && spells(sha256_digest(json_text(form)), text)
}

/// Bytes in hexadecimal notation, digit by digit.
proof fn lemma_spells(bytes: Seq<u8>)
    ensures
        spells(bytes, hex_text(bytes)),
{
    let text = hex_text(bytes);
    assert forall|i: int| 0 <= i < bytes.len() implies {
        let (high, low) = (digit_value(text[2 * i]), digit_value(text[2 * i + 1]));
        0 <= high && 0 <= low && #[trigger] bytes[i] == 16 * high + low
    } by {
        let b = bytes[i];
        assert(text[2 * i] == hex_digit(b / 16));
        assert(text[2 * i + 1] == hex_digit(b % 16));
    }
}

/// The canonical form of a tree has the members of every object in order.
pub proof fn law_canonical_form_is_ordered(value: JsonModel)
    requires
        well_keyed(value),
    ensures
        ordered_form(value, canonical(value)),
    decreases value,
{
    match value {
        JsonModel::Array(items) => {
            lemma_canonical_items(items);
            let others = canonical(value)->Array_0;
            assert forall|i: int| 0 <= i < items.len() implies ordered_form(
                #[trigger] items[i],
                others[i],
            ) by {
                law_canonical_form_is_ordered(items[i]);
            }
        },
        JsonModel::Object(members) => {
            let values = canonical_members(members);
            let others = key_sorted(values);
            lemma_canonical_members(members);
            assert(distinct_keys(values)) by {
                assert forall|i: int, j: int|
                    0 <= i < values.len() && 0 <= j < values.len() && i != j implies (
                #[trigger] values[i]).0 != (#[trigger] values[j]).0 by {
                    assert(members[i].0 != members[j].0);
                }
            }
            lemma_key_sorted(values);
            lemma_sorted_distinct(values);
            assert forall|i: int, j: int| 0 <= i < j < others.len() implies precedes(
                (#[trigger] others[i]).0,
                (#[trigger] others[j]).0,
            ) by {
                lemma_text_total(others[i].0, others[j].0);
                lemma_precedes(others[i].0, others[j].0);
            }
            assert forall|i: int| 0 <= i < members.len() implies has_form(
                (#[trigger] members[i]).0,
                members[i].1,
                others,
            ) by {
                law_canonical_form_is_ordered(members[i].1);
                assert(values.contains(values[i]));
                assert(others.contains(values[i]));
                let j = choose|j: int| 0 <= j < others.len() && others[j] == values[i];
                assert(others[j].0 == members[i].0);
            }
        },
        _ => {},
    }
}

/// The digest of a component is SHA-256 of the JSON text of its ordered form.
proof fn lemma_component_digest(value: JsonModel)
    requires
        well_keyed(value),
    ensures
        digest_is(Some(component_digest(value)), value),
{
    law_canonical_form_is_ordered(value);
    lemma_spells(sha256_digest(json_text(canonical(value))));
}

/// Whether a name is one of the components of the bus that have a digest of their own.
pub open spec fn own_digest(name: Seq<char>) -> bool {
    name == "ram"@ || name == "rom"@ || name == "swim"@ || name == "via"@ || name == "scc"@ || name
        == "scsi"@ || name == "video"@
}

/// Whether a digest is that of the value of a member, and there is none without such a member.
pub open spec fn digest_of_member(
    found: Option<Seq<char>>,
    members: Seq<(Seq<char>, JsonModel)>,
    key: Seq<char>,
) -> bool {
    &&& forall|value: JsonModel| #[trigger] members.contains((key, value)) ==> digest_is(found, value)
    &&& (forall|value: JsonModel| !#[trigger] members.contains((key, value))) ==> found is None
}

/// Whether members are just those of others that have no key out of some.
pub open spec fn are_the_rest(
    rest: Seq<(Seq<char>, JsonModel)>,
    members: Seq<(Seq<char>, JsonModel)>,
    gone: spec_fn(Seq<char>) -> bool,
) -> bool {
    &&& distinct_keys(rest)
    &&& forall|member: (Seq<char>, JsonModel)| #[trigger]
        rest.contains(member) <==> members.contains(member) && !gone(member.0)
}

/// Whether a digest is that of an object of the members that have no key out of some.
pub open spec fn digest_of_the_rest(
    found: Option<Seq<char>>,
    members: Seq<(Seq<char>, JsonModel)>,
    gone: spec_fn(Seq<char>) -> bool,
) -> bool {
    exists|rest: Seq<(Seq<char>, JsonModel)>| #[trigger]
        are_the_rest(rest, members, gone) && digest_is(found, JsonModel::Object(rest))
}

/// A member is found by its key.
proof fn lemma_member(members: Seq<(Seq<char>, JsonModel)>, key: Seq<char>, value: JsonModel)
    requires
        distinct_keys(members),
    ensures
        members.contains((key, value)) <==> member_value(members, key) == Some(value),
{
    lemma_key_index(members, key);
    if members.contains((key, value)) {
        let k = choose|k: int| 0 <= k < members.len() && members[k] == (key, value);
        let i = key_index(members, key)->0;
        if i != k {
            assert(members[i].0 != members[k].0);
        }
    }
    if let Some(i) = key_index(members, key) {
        assert(members[i] == (key, members[i].1));
        assert(members.contains(members[i]));
    }
}

/// What is left once a key has been taken out.
proof fn lemma_taken_rest(members: Seq<(Seq<char>, JsonModel)>, key: Seq<char>)
    requires
        well_keyed(JsonModel::Object(members)),
    ensures
        well_keyed(JsonModel::Object(taken(members, key))),
        are_the_rest(taken(members, key), members, |name: Seq<char>| name == key),
{
    lemma_taken(members, key);
    lemma_taken_is_gone(members, key);
    let rest = taken(members, key);
    let gone = |name: Seq<char>| name == key;
    assert forall|member: (Seq<char>, JsonModel)| #[trigger] rest.contains(member) <==> (
    members.contains(member) && !gone(member.0)) by {
        assert(member == (member.0, member.1));
        lemma_member(members, member.0, member.1);
        lemma_member(rest, member.0, member.1);
        if member.0 != key {
            assert(member_value(rest, member.0) == member_value(members, member.0));
        }
    }
}

/// What is left of the bus once all components have been taken out.
proof fn lemma_bus_rest(bus: Seq<(Seq<char>, JsonModel)>)
    requires
        well_keyed(JsonModel::Object(bus)),
    ensures
        well_keyed(JsonModel::Object(bus_without(bus, COMPONENTS as nat))),
        are_the_rest(
            bus_without(bus, COMPONENTS as nat),
            bus,
            |name: Seq<char>| own_digest(name),
        ),
{
    reveal_with_fuel(bus_without, 8);
    let b1 = taken(bus, "ram"@);
    let b2 = taken(b1, "rom"@);
    let b3 = taken(b2, "swim"@);
    let b4 = taken(b3, "via"@);
    let b5 = taken(b4, "scc"@);
    let b6 = taken(b5, "scsi"@);
    let b7 = taken(b6, "video"@);
    lemma_taken_rest(bus, "ram"@);
    lemma_taken_rest(b1, "rom"@);
    lemma_taken_rest(b2, "swim"@);
    lemma_taken_rest(b3, "via"@);
    lemma_taken_rest(b4, "scc"@);
    lemma_taken_rest(b5, "scsi"@);
    lemma_taken_rest(b6, "video"@);
    assert(bus_without(bus, COMPONENTS as nat) == b7);
    assert forall|member: (Seq<char>, JsonModel)| #[trigger] b7.contains(member) <==> (bus.contains(
        member,
    ) && !own_digest(member.0)) by {
        assert(b6.contains(member) <==> b5.contains(member) && member.0 != "scsi"@);
        assert(b5.contains(member) <==> b4.contains(member) && member.0 != "scc"@);
        assert(b4.contains(member) <==> b3.contains(member) && member.0 != "via"@);
        assert(b3.contains(member) <==> b2.contains(member) && member.0 != "swim"@);
        assert(b2.contains(member) <==> b1.contains(member) && member.0 != "rom"@);
        assert(b1.contains(member) <==> bus.contains(member) && member.0 != "ram"@);
    }
}

/// What is left of the processor without the debugger's policy and the bus.
proof fn lemma_cpu_rest(cpu: Seq<(Seq<char>, JsonModel)>)
    requires
        well_keyed(JsonModel::Object(cpu)),
    ensures
        ({
            let rest = taken(taken(taken(cpu, "breakpoints"@), "step_over_addr"@), "bus"@);
            &&& well_keyed(JsonModel::Object(rest))
            &&& are_the_rest(
                rest,
                cpu,
                |name: Seq<char>|
                    name == "breakpoints"@ || name == "step_over_addr"@ || name == "bus"@,
            )
        }),
{
    let c1 = taken(cpu, "breakpoints"@);
    let c2 = taken(c1, "step_over_addr"@);
    let c3 = taken(c2, "bus"@);
    lemma_taken_rest(cpu, "breakpoints"@);
    lemma_taken_rest(c1, "step_over_addr"@);
    lemma_taken_rest(c2, "bus"@);
    assert forall|member: (Seq<char>, JsonModel)| #[trigger] c3.contains(member) <==> (cpu.contains(
        member,
    ) && !(member.0 == "breakpoints"@ || member.0 == "step_over_addr"@ || member.0 == "bus"@)) by {
        assert(c2.contains(member) <==> c1.contains(member) && member.0 != "step_over_addr"@);
        assert(c1.contains(member) <==> cpu.contains(member) && member.0 != "breakpoints"@);
    }
}

/// No image has a name that does not start as theirs do.
proof fn lemma_no_disk(media: Seq<(usize, Seq<u8>)>, name: Seq<char>)
    requires
        forall|id: usize| #[trigger] disk_name(id) != name,
    ensures
        disks_digest(media, name) is None,
    decreases media.len(),
{
    if media.len() > 0 {
        lemma_no_disk(media.drop_last(), name);
    }
}

/// The digest with a name among those of the components.
proof fn lemma_components_digest(bus: Seq<(Seq<char>, JsonModel)>, name: Seq<char>)
    ensures
        components_digest(bus, COMPONENTS as nat, name) == if own_digest(name) {
            match member_value(bus, name) {
                Some(value) => Some(component_digest(value)),
                None => None,
            }
        } else {
            None
        },
{
    reveal_with_fuel(components_digest, 8);
    lemma_component_names();
    assert(component_name(0) == "ram"@);
    assert(component_name(1) == "rom"@);
    assert(component_name(2) == "swim"@);
    assert(component_name(3) == "via"@);
    assert(component_name(4) == "scc"@);
    assert(component_name(5) == "scsi"@);
    assert(component_name(6) == "video"@);
}

/// The names that are not of images.
proof fn lemma_names_stand_apart()
    ensures
        "cpu"@ != "bus"@ && "cpu"@ != "cycle_offset"@ && "bus"@ != "cycle_offset"@,
        !own_digest("cpu"@) && !own_digest("bus"@) && !own_digest("cycle_offset"@),
        "bus"@ != "breakpoints"@ && "bus"@ != "step_over_addr"@,
{
    reveal_strlit("cpu");
    reveal_strlit("bus");
    reveal_strlit("cycle_offset");
    reveal_strlit("breakpoints");
    reveal_strlit("step_over_addr");
    reveal_strlit("ram");
    reveal_strlit("rom");
    reveal_strlit("swim");
    reveal_strlit("via");
    reveal_strlit("scc");
    reveal_strlit("scsi");
    reveal_strlit("video");
    assert("cpu"@[0] == 'c' && "cpu"@[1] == 'p' && "bus"@[0] == 'b' && "ram"@[0] == 'r'
        && "rom"@[0] == 'r' && "via"@[0] == 'v' && "scc"@[0] == 's');
    assert("cpu"@.len() == 3 && "bus"@.len() == 3 && "cycle_offset"@.len() == 12);
}

/// Every member of the processor and of the bus enters one digest, but for the debugger's
/// breakpoints and the address to step over, which enter none.
///
/// The RAM, the ROM, SWIM, VIA, SCC, SCSI and the video have digests of their own, if the bus has
/// them. What else the bus has enters the digest of the bus, and what else the processor has enters
/// that of the processor. The cycle offset has one if it is not zero. No other name has a digest but
/// those of the images.
pub proof fn law_digests_cover_the_guest(
    snapshot: JsonModel,
    variants: Seq<(Seq<char>, JsonModel)>,
    cpu: Seq<(Seq<char>, JsonModel)>,
    bus: Seq<(Seq<char>, JsonModel)>,
    cycle_offset: u64,
    media: Seq<(usize, Seq<u8>)>,
    name: Seq<char>,
)
    requires
        well_keyed(snapshot),
        snapshot == JsonModel::Object(variants),
        variants.len() > 0,
        variants[0].1 == JsonModel::Object(cpu),
        cpu.contains(("bus"@, JsonModel::Object(bus))),
    ensures
        ({
            let found = guest_digest(snapshot, cycle_offset, media, name);
            if name == "ram"@ || name == "rom"@ || name == "swim"@ || name == "via"@ || name
                == "scc"@ || name == "scsi"@ || name == "video"@ {
                digest_of_member(found, bus, name)
            } else if name == "bus"@ {
                digest_of_the_rest(
                    found,
                    bus,
                    |key: Seq<char>|
                        key == "ram"@ || key == "rom"@ || key == "swim"@ || key == "via"@ || key
                            == "scc"@ || key == "scsi"@ || key == "video"@,
                )
            } else if name == "cpu"@ {
                digest_of_the_rest(
                    found,
                    cpu,
                    |key: Seq<char>|
                        key == "breakpoints"@ || key == "step_over_addr"@ || key == "bus"@,
                )
            } else if name == "cycle_offset"@ {
                if cycle_offset == 0 {
                    found is None
                } else {
                    digest_is(found, JsonModel::Number(cycle_offset as int))
                }
            } else if forall|id: usize| #[trigger] disk_name(id) != name {
                found is None
            } else {
                true
            }
        }),
{
    let found = guest_digest(snapshot, cycle_offset, media, name);
    lemma_names_stand_apart();
    assert(well_keyed(variants[0].1));
    lemma_member(cpu, "bus"@, JsonModel::Object(bus));
    let k = choose|k: int| 0 <= k < cpu.len() && cpu[k] == ("bus"@, JsonModel::Object(bus));
    assert(well_keyed(cpu[k].1));
    lemma_taken(cpu, "breakpoints"@);
    lemma_taken(taken(cpu, "breakpoints"@), "step_over_addr"@);
    assert(member_value(guest_cpu(snapshot), "bus"@) == member_value(
        taken(cpu, "breakpoints"@),
        "bus"@,
    ));
    assert(member_value(taken(cpu, "breakpoints"@), "bus"@) == member_value(cpu, "bus"@));
    assert(guest_bus(snapshot) == bus);
    assert(own_digest(name) || name == "bus"@ || name == "cpu"@ || name == "cycle_offset"@
        ==> disks_digest(media, name) is None) by {
        if own_digest(name) || name == "bus"@ || name == "cpu"@ || name == "cycle_offset"@ {
            assert forall|id: usize| #[trigger] disk_name(id) != name by {
                lemma_disk_name_stands_apart(id);
                assert(component_name(0) != disk_name(id));
                assert(component_name(1) != disk_name(id));
                assert(component_name(2) != disk_name(id));
                assert(component_name(3) != disk_name(id));
                assert(component_name(4) != disk_name(id));
                assert(component_name(5) != disk_name(id));
                assert(component_name(6) != disk_name(id));
            }
            lemma_no_disk(media, name);
        }
    }
    lemma_components_digest(bus, name);
    if own_digest(name) {
        assert forall|value: JsonModel| #[trigger] bus.contains((name, value)) implies digest_is(
            found,
            value,
        ) by {
            lemma_member(bus, name, value);
            let k = choose|k: int| 0 <= k < bus.len() && bus[k] == (name, value);
            assert(well_keyed(bus[k].1));
            lemma_component_digest(value);
        }
        if let Some(value) = member_value(bus, name) {
            lemma_member(bus, name, value);
            assert(bus.contains((name, value)));
        }
    } else if name == "bus"@ {
        lemma_bus_rest(bus);
        let rest = bus_without(bus, COMPONENTS as nat);
        lemma_component_digest(JsonModel::Object(rest));
        let gone = |key: Seq<char>|
            key == "ram"@ || key == "rom"@ || key == "swim"@ || key == "via"@ || key == "scc"@ || key
                == "scsi"@ || key == "video"@;
        assert forall|member: (Seq<char>, JsonModel)| #[trigger] rest.contains(member) <==> (
        bus.contains(member) && !gone(member.0)) by {
            let same = |name: Seq<char>| own_digest(name);
            assert(rest.contains(member) <==> bus.contains(member) && !same(member.0));
        }
        assert(are_the_rest(rest, bus, gone));
    } else if name == "cpu"@ {
        lemma_cpu_rest(cpu);
        let rest = taken(guest_cpu(snapshot), "bus"@);
        lemma_component_digest(JsonModel::Object(rest));
    } else if name == "cycle_offset"@ {
        if cycle_offset != 0 {
            lemma_component_digest(JsonModel::Number(cycle_offset as int));
        }
    } else if forall|id: usize| #[trigger] disk_name(id) != name {
        lemma_no_disk(media, name);
    }
}

/// The digest of an attached image is SHA-256 of what it holds, under its ID: "scsi_disk_" and the
/// digit.
pub proof fn law_images_have_digests(
    snapshot: JsonModel,
    cycle_offset: u64,
    media: Seq<(usize, Seq<u8>)>,
    at: int,
)
    requires
        ids_valid(media),
        0 <= at < media.len(),
    ensures
        guest_digest(
            snapshot,
            cycle_offset,
            media,
            "scsi_disk_"@.push((48 + media[at].0) as char),
        ) matches Some(text) && spells(sha256_digest(media[at].1), text),
{
    let id = media[at].0;
    assert(id < 7);
    assert(decimal(id as nat) == seq![(48 + id as nat) as char]);
    assert(disk_name(id) =~= "scsi_disk_"@.push((48 + id) as char));
    lemma_image_at(media, at);
    lemma_disks_digest(media, id);
    lemma_spells(sha256_digest(media[at].1));
}

/// An image is found by its ID.
pub proof fn lemma_image_at(media: Seq<(usize, Seq<u8>)>, at: int)
    requires
        ids_valid(media),
        0 <= at < media.len(),
    ensures
        image_at(media, media[at].0) == Some(media[at].1),
    decreases media.len(),
{
    let shorter = media.drop_last();
    assert(ids_valid(shorter)) by {
        assert forall|i: int, j: int|
            0 <= i < shorter.len() && 0 <= j < shorter.len() && i != j implies (
        #[trigger] shorter[i]).0 != (#[trigger] shorter[j]).0 by {
            assert(media[i].0 != media[j].0);
        }
    }
    if at < shorter.len() {
        assert(shorter[at] == media[at]);
        lemma_image_at(shorter, at);
    } else {
        crate::headless::media::lemma_absent_id(shorter, media[at].0);
    }
}

/// Digests are read by their names: what is found is in the list, and what is in the list is found.
pub proof fn law_digests_are_read_by_name(digests: Digests, name: Seq<char>, text: Seq<char>)
    requires
        digests.well_formed(),
    ensures
        digests.digest_of(name) == Some(text) <==> exists|i: int|
            0 <= i < digests.entries@.len() && (#[trigger] digests.entries@[i]).0@ == name
                && digests.entries@[i].1@ == text,
        forall|i: int, j: int|
            0 <= i < j < digests.entries@.len() ==> precedes(
                (#[trigger] digests.entries@[i]).0@,
                (#[trigger] digests.entries@[j]).0@,
            ),
{
    let entries = digests.entries@;
    lemma_index_in_range(entries, name);
    lemma_found_name(entries, name);
    if exists|i: int|
        0 <= i < entries.len() && (#[trigger] entries[i]).0@ == name && entries[i].1@ == text {
        let i = choose|i: int|
            0 <= i < entries.len() && (#[trigger] entries[i]).0@ == name && entries[i].1@ == text;
        lemma_sorted_index(entries, i);
    }
    assert forall|i: int, j: int| 0 <= i < j < entries.len() implies precedes(
        (#[trigger] entries[i]).0@,
        (#[trigger] entries[j]).0@,
    ) by {
        lemma_precedes(entries[i].0@, entries[j].0@);
    }
}

/// What is found has the name.
proof fn lemma_found_name(entries: Seq<(String, String)>, name: Seq<char>)
    ensures
        crate::headless::digest::entry_index(entries, name) matches Some(i) ==> 0 <= i
            < entries.len() && entries[i].0@ == name,
    decreases entries.len(),
{
    if entries.len() > 0 {
        lemma_found_name(entries.drop_last(), name);
    }
}

} // verus!
