//! Asset packets: how groups are written, and that what is written is read.

use crate::gamelog;
use crate::gamelog::{AssetAssignment, Group};
use vstd::prelude::*;

verus! {

/// Whether some bytes stand at a place of others.
pub open spec fn stands(bytes: Seq<u8>, at: int, piece: Seq<u8>) -> bool {
    &&& 0 <= at
    &&& at + piece.len() <= bytes.len()
    &&& bytes.subrange(at, at + piece.len()) == piece
}

proof fn lemma_parts(bytes: Seq<u8>, at: int, a: Seq<u8>, b: Seq<u8>)
    requires
        stands(bytes, at, a + b),
    ensures
        stands(bytes, at, a),
        stands(bytes, at + a.len(), b),
{
    let whole = bytes.subrange(at, at + (a + b).len());
    assert((a + b).take(a.len() as int) =~= a);
    assert((a + b).skip(a.len() as int) =~= b);
    assert(bytes.subrange(at, at + a.len()) =~= whole.take(a.len() as int));
    assert(bytes.subrange(at + a.len(), at + a.len() + b.len()) =~= whole.skip(a.len() as int));
}

proof fn lemma_byte(bytes: Seq<u8>, at: int, piece: Seq<u8>, i: int)
    requires
        stands(bytes, at, piece),
        0 <= i < piece.len(),
    ensures
        bytes[at + i] == piece[i],
{
    assert(bytes.subrange(at, at + piece.len())[i] == bytes[at + i]);
}

proof fn lemma_number(bytes: Seq<u8>, at: int, value: u64)
    requires
        stands(bytes, at, gamelog::uvarint_bytes(value as nat)),
    ensures
        gamelog::uvarint(bytes, at) == Some(
            (value as nat, at + gamelog::uvarint_bytes(value as nat).len()),
        ),
{
    gamelog::law_uvarint_round_trip(bytes, at, value);
}

/// A text as it is written: the number of its bytes, and the bytes.
pub open spec fn text_bytes(text: Seq<char>) -> Seq<u8> {
    let bytes = vstd::utf8::encode_utf8(text);
    gamelog::uvarint_bytes(bytes.len()) + bytes
}

/// Pairs of texts as they are written, one after the other.
pub open spec fn pairs_bytes(pairs: Seq<(Seq<char>, Seq<char>)>) -> Seq<u8>
    decreases pairs.len(),
{
    if pairs.len() == 0 {
        Seq::empty()
    } else {
        text_bytes(pairs[0].0) + (text_bytes(pairs[0].1) + pairs_bytes(pairs.drop_first()))
    }
}

/// Assignments as they are written: each a one, the index with its low byte first, and the amount.
pub open spec fn assignments_bytes(list: Seq<AssetAssignment>) -> Seq<u8>
    decreases list.len(),
{
    if list.len() == 0 {
        Seq::empty()
    } else {
        seq![1u8, (list[0].index % 256) as u8, (list[0].index / 256) as u8] + (
        gamelog::uvarint_bytes(list[0].amount as nat) + assignments_bytes(list.drop_first()))
    }
}

/// The asset id of a group as it is written: the bytes of the transaction id, last byte first, and the
/// group with its low byte first.
pub open spec fn id_bytes(group: Group) -> Seq<u8> {
    match group.asset_id {
        Some(id) => id.txid.bytes@.reverse() + seq![
            (id.group_index % 256) as u8,
            (id.group_index / 256) as u8,
        ],
        None => Seq::empty(),
    }
}

/// The metadata of a group as it is written.
pub open spec fn metadata_bytes(group: Group) -> Seq<u8> {
    match group.metadata {
        Some(pairs) => gamelog::uvarint_bytes(pairs.len()) + pairs_bytes(pairs),
        None => Seq::empty(),
    }
}

/// A list of assignments with its length.
pub open spec fn list_bytes(list: Seq<AssetAssignment>) -> Seq<u8> {
    gamelog::uvarint_bytes(list.len()) + assignments_bytes(list)
}

/// The first byte of a group: one for an asset id, two for a control asset, four for metadata.
pub open spec fn presence(group: Group) -> u8 {
    ((if group.asset_id is Some {
        1int
    } else {
        0
    }) + (if group.has_control_asset {
        2int
    } else {
        0
    }) + (if group.metadata is Some {
        4int
    } else {
        0
    })) as u8
}

/// Whether some bytes refer to the control asset of a group: an id behind a one, or a group behind a
/// two; nothing for a group without one.
pub open spec fn refers(control: Seq<u8>, group: Group) -> bool {
    if group.has_control_asset {
        ||| control.len() == 35 && control[0] == 1
        ||| control.len() == 3 && control[0] == 2
    } else {
        control.len() == 0
    }
}

/// A group as it is written.
pub open spec fn group_bytes(group: Group, control: Seq<u8>) -> Seq<u8> {
    seq![presence(group)] + (id_bytes(group) + (control + (metadata_bytes(group) + (list_bytes(
        group.inputs,
    ) + list_bytes(group.outputs)))))
}

/// Groups as they are written.
pub open spec fn groups_bytes(groups: Seq<(Group, Seq<u8>)>) -> Seq<u8>
    decreases groups.len(),
{
    if groups.len() == 0 {
        Seq::empty()
    } else {
        group_bytes(groups[0].0, groups[0].1) + groups_bytes(groups.drop_first())
    }
}

/// Whether a group is within the limits: a thousand pairs of texts, and ten thousand assignments on
/// each side.
pub open spec fn is_within(group: Group) -> bool {
    &&& group.inputs.len() <= 10_000
    &&& group.outputs.len() <= 10_000
    &&& group.metadata matches Some(pairs) ==> pairs.len() <= 1_000 && forall|i: int|
        0 <= i < pairs.len() ==> vstd::utf8::encode_utf8((#[trigger] pairs[i]).0).len() <= u64::MAX
            && vstd::utf8::encode_utf8(pairs[i].1).len() <= u64::MAX
}

proof fn lemma_text(bytes: Seq<u8>, at: int, text: Seq<char>)
    requires
        stands(bytes, at, text_bytes(text)),
        vstd::utf8::encode_utf8(text).len() <= u64::MAX,
    ensures
        gamelog::string_at(bytes, at) == Some((text, at + text_bytes(text).len())),
{
    let coded = vstd::utf8::encode_utf8(text);
    let size = gamelog::uvarint_bytes(coded.len());
    lemma_parts(bytes, at, size, coded);
    lemma_number(bytes, at, coded.len() as u64);
    vstd::utf8::encode_utf8_valid_utf8(text);
    vstd::utf8::encode_utf8_decode_utf8(text);
}

proof fn lemma_pairs(bytes: Seq<u8>, at: int, pairs: Seq<(Seq<char>, Seq<char>)>)
    requires
        stands(bytes, at, pairs_bytes(pairs)),
        forall|i: int|
            0 <= i < pairs.len() ==> vstd::utf8::encode_utf8((#[trigger] pairs[i]).0).len()
                <= u64::MAX && vstd::utf8::encode_utf8(pairs[i].1).len() <= u64::MAX,
    ensures
        gamelog::pairs_from(bytes, at, pairs.len()) == Some(
            (pairs, at + pairs_bytes(pairs).len()),
        ),
    decreases pairs.len(),
{
    if pairs.len() > 0 {
        let rest = pairs.drop_first();
        let key = text_bytes(pairs[0].0);
        let value = text_bytes(pairs[0].1);
        lemma_parts(bytes, at, key, value + pairs_bytes(rest));
        lemma_parts(bytes, at + key.len(), value, pairs_bytes(rest));
        lemma_text(bytes, at, pairs[0].0);
        lemma_text(bytes, at + key.len(), pairs[0].1);
        assert forall|i: int| 0 <= i < rest.len() implies vstd::utf8::encode_utf8(
            (#[trigger] rest[i]).0,
        ).len() <= u64::MAX && vstd::utf8::encode_utf8(rest[i].1).len() <= u64::MAX by {
            assert(rest[i] == pairs[i + 1]);
        }
        lemma_pairs(bytes, at + key.len() + value.len(), rest);
        assert(seq![pairs[0]] + rest =~= pairs);
    } else {
        assert(pairs =~= Seq::empty());
    }
}

proof fn lemma_assignments(bytes: Seq<u8>, at: int, list: Seq<AssetAssignment>)
    requires
        stands(bytes, at, assignments_bytes(list)),
    ensures
        gamelog::assignments_from(bytes, at, list.len()) == Some(
            (list, at + assignments_bytes(list).len()),
        ),
    decreases list.len(),
{
    if list.len() > 0 {
        let rest = list.drop_first();
        let head = seq![1u8, (list[0].index % 256) as u8, (list[0].index / 256) as u8];
        let amount = gamelog::uvarint_bytes(list[0].amount as nat);
        lemma_parts(bytes, at, head, amount + assignments_bytes(rest));
        lemma_parts(bytes, at + 3, amount, assignments_bytes(rest));
        lemma_byte(bytes, at, head, 0);
        lemma_byte(bytes, at, head, 1);
        lemma_byte(bytes, at, head, 2);
        lemma_number(bytes, at + 3, list[0].amount);
        lemma_assignments(bytes, at + 3 + amount.len(), rest);
        assert(seq![list[0]] + rest =~= list);
    } else {
        assert(list =~= Seq::empty());
    }
}

proof fn lemma_list(bytes: Seq<u8>, at: int, list: Seq<AssetAssignment>)
    requires
        stands(bytes, at, list_bytes(list)),
        list.len() <= 10_000,
    ensures
        gamelog::assignments_at(bytes, at) == Some((list, at + list_bytes(list).len())),
{
    let size = gamelog::uvarint_bytes(list.len());
    lemma_parts(bytes, at, size, assignments_bytes(list));
    lemma_number(bytes, at, list.len() as u64);
    lemma_assignments(bytes, at + size.len(), list);
}

proof fn lemma_id(bytes: Seq<u8>, at: int, group: Group)
    requires
        group.asset_id is Some,
        stands(bytes, at, id_bytes(group)),
    ensures
        gamelog::asset_id_at(bytes, at) == Some((group.asset_id.unwrap(), at + 34)),
        id_bytes(group).len() == 34,
{
    let id = group.asset_id.unwrap();
    let shown = id.txid.bytes@.reverse();
    let tail = seq![(id.group_index % 256) as u8, (id.group_index / 256) as u8];
    lemma_parts(bytes, at, shown, tail);
    assert(shown.reverse() =~= id.txid.bytes@);
    id.txid.lemma_of_bytes();
    lemma_byte(bytes, at + 32, tail, 0);
    lemma_byte(bytes, at + 32, tail, 1);
}

proof fn lemma_presence(group: Group)
    ensures
        presence(group) < 8,
        (presence(group) % 2 == 1) == (group.asset_id is Some),
        (presence(group) / 2 % 2 == 1) == group.has_control_asset,
        (presence(group) / 4 % 2 == 1) == (group.metadata is Some),
{
}

proof fn lemma_control(bytes: Seq<u8>, at: int, group: Group, control: Seq<u8>)
    requires
        group.has_control_asset,
        refers(control, group),
        stands(bytes, at, control),
    ensures
        gamelog::control_asset_end(bytes, at) == Some(at + control.len()),
{
    lemma_byte(bytes, at, control, 0);
}

proof fn lemma_metadata(bytes: Seq<u8>, at: int, group: Group)
    requires
        group.metadata is Some,
        is_within(group),
        stands(bytes, at, metadata_bytes(group)),
    ensures
        gamelog::metadata_at(bytes, at) == Some(
            (group.metadata.unwrap(), at + metadata_bytes(group).len()),
        ),
{
    let list = group.metadata.unwrap();
    let size = gamelog::uvarint_bytes(list.len());
    lemma_parts(bytes, at, size, pairs_bytes(list));
    lemma_number(bytes, at, list.len() as u64);
    lemma_pairs(bytes, at + size.len(), list);
}

proof fn lemma_group_parts(
    bytes: Seq<u8>,
    at: int,
    group: Group,
    after_id: int,
    after_control: int,
    after_pairs: int,
    mid: int,
    end: int,
)
    requires
        0 <= at < bytes.len(),
        bytes[at] == presence(group),
        group.asset_id is Some ==> gamelog::asset_id_at(bytes, at + 1) == Some(
            (group.asset_id.unwrap(), after_id),
        ),
        group.asset_id is None ==> after_id == at + 1,
        group.has_control_asset ==> gamelog::control_asset_end(bytes, after_id) == Some(
            after_control,
        ),
        !group.has_control_asset ==> after_control == after_id,
        group.metadata is Some ==> gamelog::metadata_at(bytes, after_control) == Some(
            (group.metadata.unwrap(), after_pairs),
        ),
        group.metadata is None ==> after_pairs == after_control,
        gamelog::assignments_at(bytes, after_pairs) == Some((group.inputs, mid)),
        gamelog::assignments_at(bytes, mid) == Some((group.outputs, end)),
    ensures
        gamelog::group_at(bytes, at) == Some((group, end)),
{
    lemma_presence(group);
}

/// A group that is within the limits is read as it was written, wherever it stands, with where it
/// ends.
pub proof fn law_written_groups_are_read(bytes: Seq<u8>, at: int, group: Group, control: Seq<u8>)
    requires
        is_within(group),
        refers(control, group),
        stands(bytes, at, group_bytes(group, control)),
    ensures
        gamelog::group_at(bytes, at) == Some((group, at + group_bytes(group, control).len())),
{
    let id = id_bytes(group);
    let pairs = metadata_bytes(group);
    let inputs = list_bytes(group.inputs);
    let outputs = list_bytes(group.outputs);
    let first = seq![presence(group)];
    lemma_parts(bytes, at, first, id + (control + (pairs + (inputs + outputs))));
    lemma_parts(bytes, at + 1, id, control + (pairs + (inputs + outputs)));
    let after_id = at + 1 + id.len();
    lemma_parts(bytes, after_id, control, pairs + (inputs + outputs));
    let after_control = after_id + control.len();
    lemma_parts(bytes, after_control, pairs, inputs + outputs);
    let after_pairs = after_control + pairs.len();
    lemma_parts(bytes, after_pairs, inputs, outputs);
    let mid = after_pairs + inputs.len();
    lemma_byte(bytes, at, first, 0);
    if group.asset_id is Some {
        lemma_id(bytes, at + 1, group);
    }
    if group.has_control_asset {
        lemma_control(bytes, after_id, group, control);
    }
    if group.metadata is Some {
        lemma_metadata(bytes, after_control, group);
    }
    lemma_list(bytes, after_pairs, group.inputs);
    lemma_list(bytes, mid, group.outputs);
    lemma_group_parts(
        bytes,
        at,
        group,
        after_id,
        after_control,
        after_pairs,
        mid,
        mid + outputs.len(),
    );
}

proof fn lemma_groups(bytes: Seq<u8>, at: int, groups: Seq<(Group, Seq<u8>)>)
    requires
        forall|i: int|
            0 <= i < groups.len() ==> is_within((#[trigger] groups[i]).0) && refers(
                groups[i].1,
                groups[i].0,
            ),
        stands(bytes, at, groups_bytes(groups)),
    ensures
        gamelog::groups_from(bytes, at, groups.len()) == Some(
            (
                groups.map_values(|g: (Group, Seq<u8>)| g.0),
                at + groups_bytes(groups).len(),
            ),
        ),
    decreases groups.len(),
{
    let plain = groups.map_values(|g: (Group, Seq<u8>)| g.0);
    if groups.len() > 0 {
        let rest = groups.drop_first();
        let head = group_bytes(groups[0].0, groups[0].1);
        lemma_parts(bytes, at, head, groups_bytes(rest));
        law_written_groups_are_read(bytes, at, groups[0].0, groups[0].1);
        assert forall|i: int| 0 <= i < rest.len() implies is_within((#[trigger] rest[i]).0)
            && refers(rest[i].1, rest[i].0) by {
            assert(rest[i] == groups[i + 1]);
        }
        lemma_groups(bytes, at + head.len(), rest);
        assert(seq![groups[0].0] + rest.map_values(|g: (Group, Seq<u8>)| g.0) =~= plain);
    } else {
        assert(plain =~= Seq::empty());
    }
}

/// A packet of one to a thousand groups within the limits is read as it was written.
pub proof fn law_written_packets_are_read(groups: Seq<(Group, Seq<u8>)>)
    requires
        1 <= groups.len() <= 1_000,
        forall|i: int|
            0 <= i < groups.len() ==> is_within((#[trigger] groups[i]).0) && refers(
                groups[i].1,
                groups[i].0,
            ),
    ensures
        gamelog::packet_of(gamelog::uvarint_bytes(groups.len()) + groups_bytes(groups)) == Some(
            groups.map_values(|g: (Group, Seq<u8>)| g.0),
        ),
{
    let size = gamelog::uvarint_bytes(groups.len());
    let bytes = size + groups_bytes(groups);
    assert(bytes.subrange(0, bytes.len() as int) =~= bytes);
    lemma_parts(bytes, 0, size, groups_bytes(groups));
    lemma_number(bytes, 0, groups.len() as u64);
    lemma_groups(bytes, size.len() as int, groups);
}

/// Metadata within the limits is read from its hexadecimal text, and only as a whole.
pub proof fn law_written_metadata_is_read(group: Group, raw: Seq<char>, more: Seq<u8>)
    requires
        group.metadata is Some,
        is_within(group),
        crate::text::hex_bytes(raw) == Some(metadata_bytes(group) + more),
    ensures
        more.len() == 0 ==> gamelog::metadata_of(raw) == group.metadata,
        more.len() > 0 ==> gamelog::metadata_of(raw) is None,
{
    let list = group.metadata.unwrap();
    let bytes = metadata_bytes(group) + more;
    let size = gamelog::uvarint_bytes(list.len());
    assert(bytes.subrange(0, bytes.len() as int) =~= bytes);
    lemma_parts(bytes, 0, metadata_bytes(group), more);
    lemma_parts(bytes, 0, size, pairs_bytes(list));
    lemma_number(bytes, 0, list.len() as u64);
    lemma_pairs(bytes, size.len() as int, list);
}

/// Packets are refused that have no group or more than a thousand; so are groups with an unknown
/// first byte, control assets of an unknown kind, lists over the limits, and assignments that do not
/// start with a one.
pub proof fn law_other_packets_are_refused(bytes: Seq<u8>, at: int, count: nat, end: int)
    requires
        0 <= at,
        gamelog::uvarint(bytes, at) == Some((count, end)),
    ensures
        at == 0 && (count == 0 || count > 1_000) ==> gamelog::packet_of(bytes) is None,
        bytes[at] >= 8 ==> gamelog::group_at(bytes, at) is None,
        count > 1_000 ==> gamelog::metadata_at(bytes, at) is None,
        count > 10_000 ==> gamelog::assignments_at(bytes, at) is None,
        0 < count <= 10_000 && (end >= bytes.len() || bytes[end] != 1)
            ==> gamelog::assignments_at(bytes, at) is None,
        bytes[at] != 1 && bytes[at] != 2 ==> gamelog::control_asset_end(bytes, at) is None,
{
}

} // verus!
