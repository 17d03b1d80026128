//! The move ledger: which transactions register a player, and which ones burn a move.

use crate::chain::Output;
use crate::gamelog;
use crate::gamelog::{AssetAssignment, Burn, Group, MoveReceipt};
use crate::script;
use crate::script::Item;
use crate::text;
use vstd::prelude::*;

verus! {

/// Whether a group issues fifty units of a move in output one, and can never issue more.
pub open spec fn issues_fifty(group: Group, letter: Seq<char>) -> bool {
    &&& group.asset_id is None
    &&& !group.has_control_asset
    &&& group.inputs.len() == 0
    &&& group.outputs.len() == 1
    &&& group.outputs[0].index == 1
    &&& group.outputs[0].amount == 50
    &&& group.metadata matches Some(pairs) && {
        &&& pairs.len() == 2
        &&& pairs[0].0 == "game"@
        &&& pairs[0].1 == "arkade-maze-v2"@
        &&& pairs[1].0 == "move"@
        &&& pairs[1].1 == letter
    }
}

/// Whether a transaction is a canonical registration: a packet with fifty units each of W, D, S and
/// A for output one, no plain data, one output that pays dust to the registry, the first, and dust
/// to a taproot script in the second.
pub open spec fn registers(outputs: Seq<Output>, registry: Seq<char>, dust: u64) -> bool {
    &&& gamelog::asset_packet_of(outputs) matches Some(groups) && {
        &&& groups.len() == 4
        &&& issues_fifty(groups[0], "w"@)
        &&& issues_fifty(groups[1], "d"@)
        &&& issues_fifty(groups[2], "s"@)
        &&& issues_fifty(groups[3], "a"@)
    }
    &&& forall|i: int| 0 <= i < outputs.len() ==> gamelog::payload_of(#[trigger] outputs[i]) is None
    &&& outputs.len() >= 2
    &&& outputs[0].value == dust
    &&& outputs[1].value == dust
    &&& text::hex_text(outputs[0].script) == registry
    &&& forall|i: int|
        1 <= i < outputs.len() ==> text::hex_text((#[trigger] outputs[i]).script) != registry
    &&& outputs[1].script.len() == 34
    &&& outputs[1].script[0] == 0x51
    &&& outputs[1].script[1] == 0x20
}

proof fn lemma_issues_fifty(group: Group, index: int)
    requires
        0 <= index < 4,
    ensures
        gamelog::issues_direction(group, index) <==> issues_fifty(
            group,
            if index == 0 {
                "w"@
            } else if index == 1 {
                "d"@
            } else if index == 2 {
                "s"@
            } else {
                "a"@
            },
        ),
{
    let letter = if index == 0 {
        "w"@
    } else if index == 1 {
        "d"@
    } else if index == 2 {
        "s"@
    } else {
        "a"@
    };
    let pairs = seq![("game"@, "arkade-maze-v2"@), ("move"@, letter)];
    assert(gamelog::move_metadata(index) =~= pairs);
    if issues_fifty(group, letter) {
        assert(group.metadata.unwrap() =~= pairs);
        assert(group.outputs =~= seq![AssetAssignment { index: 1, amount: 50 }]);
    }
}

/// A registration is accepted exactly where it is canonical, for the script of its second output.
pub proof fn law_registrations_issue_fifty_of_each_move(
    outputs: Seq<Output>,
    registry: Seq<char>,
    dust: u64,
)
    ensures
        gamelog::registered_script(outputs, registry, dust) == if registers(
            outputs,
            registry,
            dust,
        ) {
            Some(text::hex_text(outputs[1].script))
        } else {
            None
        },
{
    lemma_no_payloads(outputs);
    if let Some(groups) = gamelog::asset_packet_of(outputs) {
        if groups.len() == 4 {
            lemma_issues_fifty(groups[0], 0);
            lemma_issues_fifty(groups[1], 1);
            lemma_issues_fifty(groups[2], 2);
            lemma_issues_fifty(groups[3], 3);
        }
    }
}

/// Only an issuance of fifty units of each move, all of them in output one, registers a player.
pub proof fn law_registered_players_hold_fifty_of_each_move(
    outputs: Seq<Output>,
    registry: Seq<char>,
    dust: u64,
    i: int,
)
    requires
        gamelog::registered_script(outputs, registry, dust) is Some,
        0 <= i < 4,
    ensures
        gamelog::asset_packet_of(outputs) matches Some(groups) && {
            &&& groups.len() == 4
            &&& groups[i].outputs.len() == 1
            &&& groups[i].outputs[0].amount == 50
            &&& groups[i].outputs[0].index == 1
            &&& groups[i].inputs.len() == 0
            &&& groups[i].asset_id is None
            &&& !groups[i].has_control_asset
        },
{
    law_registrations_issue_fifty_of_each_move(outputs, registry, dust);
}

/// Metadata names a move exactly where it is the game's, and the group is the one of that move.
pub proof fn law_metadata_names_the_move(pairs: Seq<(Seq<char>, Seq<char>)>, group_index: u16)
    ensures
        gamelog::direction_of(pairs, group_index) is Some ==> gamelog::direction_of(
            pairs,
            group_index,
        ) == Some(group_index as u8),
        gamelog::direction_of(pairs, group_index) is Some <==> {
            &&& pairs.len() == 2
            &&& pairs[0] == ("game"@, "arkade-maze-v2"@)
            &&& pairs[1].0 == "move"@
            &&& {
                ||| group_index == 0 && pairs[1].1 == "w"@
                ||| group_index == 1 && pairs[1].1 == "d"@
                ||| group_index == 2 && pairs[1].1 == "s"@
                ||| group_index == 3 && pairs[1].1 == "a"@
            }
        },
{
    if group_index < 4 {
        let letter = gamelog::DIRECTIONS[group_index as int]@;
        assert(gamelog::move_metadata(group_index as int) =~= seq![
            ("game"@, "arkade-maze-v2"@),
            ("move"@, letter),
        ]);
        if pairs.len() == 2 && pairs[0] == ("game"@, "arkade-maze-v2"@) && pairs[1] == ("move"@, letter) {
            assert(pairs =~= gamelog::move_metadata(group_index as int));
        }
    }
}

proof fn lemma_no_payloads(outputs: Seq<Output>)
    ensures
        gamelog::payloads_of(outputs).len() == 0 <==> forall|i: int|
            0 <= i < outputs.len() ==> gamelog::payload_of(#[trigger] outputs[i]) is None,
    decreases outputs.len(),
{
    if outputs.len() > 0 {
        let rest = outputs.drop_last();
        let n = outputs.len() - 1;
        lemma_no_payloads(rest);
        assert(forall|i: int| 0 <= i < n ==> rest[i] == outputs[i]);
        assert(outputs.last() == outputs[n]);
        if gamelog::payload_of(outputs[n]) is None && gamelog::payloads_of(rest).len() == 0 {
            assert forall|i: int| 0 <= i < outputs.len() implies gamelog::payload_of(
                #[trigger] outputs[i],
            ) is None by {
                if i < n {
                    assert(rest[i] == outputs[i]);
                }
            }
        }
        if forall|i: int| 0 <= i < outputs.len() ==> gamelog::payload_of(#[trigger] outputs[i]) is None {
            assert forall|i: int| 0 <= i < rest.len() implies gamelog::payload_of(
                #[trigger] rest[i],
            ) is None by {
                assert(rest[i] == outputs[i]);
            }
        }
    }
}

/// An output carries plain data exactly where it is worth nothing and its script is `OP_RETURN` and
/// a push that does not start with the marker of extensions.
pub proof fn law_plain_data_is_read(output: Output, data: Seq<u8>)
    ensures
        gamelog::payload_of(output) == Some(data) <==> {
            let items = script::script_items(output.script);
            &&& output.value == 0
            &&& items.len() >= 2
            &&& items[0] == Item::Op(0x6a)
            &&& items[1] == Item::Push(data)
            &&& !(data.len() >= 3 && data[0] == 0x41 && data[1] == 0x52 && data[2] == 0x4b)
        },
{
}

/// A receipt is seven bytes: two that mark it, the version, and the number, low byte first.
pub proof fn law_receipts_are_seven_bytes(raw: Seq<u8>, sequence: u32)
    ensures
        MoveReceipt::of_bytes(raw) == Some(MoveReceipt { sequence }) <==> {
            &&& raw.len() == 7
            &&& raw[0] == 0x41
            &&& raw[1] == 0x4d
            &&& raw[2] == 2
            &&& raw[3] + 256 * raw[4] + 65_536 * raw[5] + 16_777_216 * raw[6] == sequence
        },
        ({
            let bytes = (MoveReceipt { sequence }).bytes();
            &&& bytes.len() == 7
            &&& bytes[0] == 0x41
            &&& bytes[1] == 0x4d
            &&& bytes[2] == 2
            &&& bytes[3] + 256 * bytes[4] + 65_536 * bytes[5] + 16_777_216 * bytes[6] == sequence
        }),
{
    if raw.len() == 7 {
        let tail = raw.skip(3);
        assert(tail[0] == raw[3] && tail[1] == raw[4] && tail[2] == raw[5] && tail[3] == raw[6]);
    }
    gamelog::law_receipt_round_trip(MoveReceipt { sequence });
    let bytes = (MoveReceipt { sequence }).bytes();
    assert(bytes.len() == 7);
    let tail = bytes.skip(3);
    assert(tail[0] == bytes[3] && tail[1] == bytes[4] && tail[2] == bytes[5] && tail[3] == bytes[6]);
}

/// The receipt in an output, if it carries one.
pub open spec fn receipt_in(output: Output) -> Option<MoveReceipt> {
    match gamelog::payload_of(output) {
        Some(data) => MoveReceipt::of_bytes(data),
        None => None,
    }
}

proof fn lemma_receipts_step(outputs: Seq<Output>)
    requires
        outputs.len() > 0,
    ensures
        gamelog::receipts_of(outputs) == match receipt_in(outputs.last()) {
            Some(receipt) => gamelog::receipts_of(outputs.drop_last()).push(receipt),
            None => gamelog::receipts_of(outputs.drop_last()),
        },
{
    let before = gamelog::payloads_of(outputs.drop_last());
    if let Some(data) = gamelog::payload_of(outputs.last()) {
        let all = before + seq![data];
        assert(gamelog::payloads_of(outputs) == all);
        assert(all.drop_last() =~= before);
        assert(all.last() == data);
    }
}

proof fn lemma_receipts_found(outputs: Seq<Output>, k: int)
    requires
        0 <= k < outputs.len(),
        receipt_in(outputs[k]) is Some,
    ensures
        gamelog::receipts_of(outputs).len() >= 1,
    decreases outputs.len(),
{
    lemma_receipts_step(outputs);
    if k < outputs.len() - 1 {
        assert(outputs.drop_last()[k] == outputs[k]);
        lemma_receipts_found(outputs.drop_last(), k);
    }
}

proof fn lemma_two_receipts_found(outputs: Seq<Output>, j: int, k: int)
    requires
        0 <= j < k < outputs.len(),
        receipt_in(outputs[j]) is Some,
        receipt_in(outputs[k]) is Some,
    ensures
        gamelog::receipts_of(outputs).len() >= 2,
    decreases outputs.len(),
{
    lemma_receipts_step(outputs);
    let rest = outputs.drop_last();
    assert(rest[j] == outputs[j]);
    if k < outputs.len() - 1 {
        assert(rest[k] == outputs[k]);
        lemma_two_receipts_found(rest, j, k);
    } else {
        lemma_receipts_found(rest, j);
    }
}

proof fn lemma_only_receipt(outputs: Seq<Output>, k: int)
    requires
        -1 <= k < outputs.len(),
        k >= 0 ==> receipt_in(outputs[k]) is Some,
        forall|i: int|
            0 <= i < outputs.len() && i != k ==> receipt_in(#[trigger] outputs[i]) is None,
    ensures
        k < 0 ==> gamelog::receipts_of(outputs).len() == 0,
        k >= 0 ==> gamelog::receipts_of(outputs) == seq![receipt_in(outputs[k]).unwrap()],
    decreases outputs.len(),
{
    if outputs.len() > 0 {
        lemma_receipts_step(outputs);
        let rest = outputs.drop_last();
        let n = outputs.len() - 1;
        assert forall|i: int| 0 <= i < rest.len() && i != k implies receipt_in(
            #[trigger] rest[i],
        ) is None by {
            assert(rest[i] == outputs[i]);
        }
        if k == n {
            lemma_only_receipt(rest, -1);
            assert(gamelog::receipts_of(rest) =~= Seq::empty());
        } else {
            if k >= 0 {
                assert(rest[k] == outputs[k]);
            }
            lemma_only_receipt(rest, k);
        }
    }
}

/// A transaction has a receipt exactly where one of its outputs, and no other, carries one.
pub proof fn law_one_receipt_is_read(outputs: Seq<Output>, receipt: MoveReceipt)
    ensures
        gamelog::receipt_of(outputs) == Some(receipt) <==> exists|k: int|
            0 <= k < outputs.len() && receipt_in(#[trigger] outputs[k]) == Some(receipt)
                && forall|i: int|
                0 <= i < outputs.len() && i != k ==> receipt_in(#[trigger] outputs[i]) is None,
{
    if exists|k: int| 0 <= k < outputs.len() && receipt_in(#[trigger] outputs[k]) is Some {
        let k = choose|k: int|
            0 <= k < outputs.len() && receipt_in(#[trigger] outputs[k]) is Some;
        if forall|i: int|
            0 <= i < outputs.len() && i != k ==> receipt_in(#[trigger] outputs[i]) is None {
            lemma_only_receipt(outputs, k);
        } else {
            let j = choose|j: int|
                0 <= j < outputs.len() && j != k && receipt_in(#[trigger] outputs[j]) is Some;
            if j < k {
                lemma_two_receipts_found(outputs, j, k);
            } else {
                lemma_two_receipts_found(outputs, k, j);
            }
        }
    } else {
        lemma_only_receipt(outputs, -1);
    }
}

/// The sum of amounts starts from nothing and grows by each amount.
pub proof fn law_units_add_up(assignments: Seq<AssetAssignment>, more: AssetAssignment)
    ensures
        gamelog::total(Seq::empty()) == 0,
        gamelog::total(assignments.push(more)) == gamelog::total(assignments) + more.amount,
{
    assert(assignments.push(more).drop_last() =~= assignments);
}

/// Whether a group moves units of a player's move asset: one of the four of an issuance, named by
/// its id alone, from inputs of positive amounts to existing outputs of positive amounts.
pub open spec fn moves_a_move(group: Group, output_count: nat) -> bool {
    &&& group.asset_id matches Some(id) && id.group_index <= 3
    &&& group.metadata is None
    &&& !group.has_control_asset
    &&& group.inputs.len() >= 1
    &&& forall|i: int| 0 <= i < group.inputs.len() ==> (#[trigger] group.inputs[i]).amount >= 1
    &&& forall|i: int|
        0 <= i < group.outputs.len() ==> (#[trigger] group.outputs[i]).amount >= 1
            && group.outputs[i].index < output_count
    &&& gamelog::total(group.inputs) <= u64::MAX
}

/// Whether a packet burns one unit in its group `k`, for any number of groups: each moves a move of
/// the same player, no two the same one; group `k` gives back one unit less than it takes, and every
/// other one all it takes.
pub open spec fn burns_in(groups: Seq<Group>, output_count: nat, k: int) -> bool {
    &&& 0 <= k < groups.len()
    &&& forall|i: int| 0 <= i < groups.len() ==> moves_a_move(#[trigger] groups[i], output_count)
    &&& forall|i: int|
        0 <= i < groups.len() ==> (#[trigger] groups[i]).asset_id.unwrap().txid
            == groups[k].asset_id.unwrap().txid
    &&& forall|i: int, j: int|
        0 <= i < groups.len() && 0 <= j < groups.len() && i != j ==> (
        #[trigger] groups[i]).asset_id.unwrap().group_index != (
        #[trigger] groups[j]).asset_id.unwrap().group_index
    &&& forall|i: int|
        0 <= i < groups.len() ==> gamelog::total((#[trigger] groups[i]).inputs) == gamelog::total(
            groups[i].outputs,
        ) + if i == k {
            1nat
        } else {
            0
        }
}

/// Every transaction with one receipt and one packet that burns one unit is read as the burn of the
/// asset that loses the unit, with that receipt.
pub proof fn law_one_unit_burns_are_read(
    outputs: Seq<Output>,
    receipt: MoveReceipt,
    groups: Seq<Group>,
    k: int,
)
    requires
        gamelog::receipt_of(outputs) == Some(receipt),
        gamelog::asset_packet_of(outputs) == Some(groups),
        burns_in(groups, outputs.len(), k),
    ensures
        gamelog::burn_of(outputs) matches Some(burn) && {
            &&& burn.receipt == receipt
            &&& burn.asset_id == groups[k].asset_id.unwrap()
            &&& forall|index: u16| #[trigger]
                burn.preserved_output_indexes.contains(index) <==> receives(groups, index)
            &&& burn.preserved_output_indexes.no_duplicates()
        },
{
    assert(gamelog::burns_unit(groups[k]));
    assert forall|i: int| 0 <= i < groups.len() implies gamelog::moves_units(
        #[trigger] groups[i],
        outputs.len(),
    ) by {
        assert(moves_a_move(groups[i], outputs.len()));
        assert(gamelog::total(groups[i].inputs) <= gamelog::total(groups[i].outputs) + 1);
    }
    assert forall|i: int, j: int| 0 <= i < j < groups.len() implies !(gamelog::burns_unit(
        #[trigger] groups[i],
    ) && gamelog::burns_unit(#[trigger] groups[j])) by {
        assert(gamelog::total(groups[i].inputs) == gamelog::total(groups[i].outputs) + if i == k {
            1nat
        } else {
            0
        });
    }
    assert(gamelog::burns_one_unit(groups, outputs.len()));
    let chosen = choose|c: int| 0 <= c < groups.len() && gamelog::burns_unit(#[trigger] groups[c]);
    assert(gamelog::total(groups[chosen].inputs) == gamelog::total(groups[chosen].outputs) + if chosen
        == k {
        1nat
    } else {
        0
    });
    assert(chosen == k);
    gamelog::law_preserved_outputs_exist(groups, outputs.len());
    assert forall|index: u16| #[trigger]
        gamelog::preserved_indexes(groups).contains(index) <==> receives(groups, index) by {
        lemma_preserved(groups, index);
    }
}

/// Whether some group gives units to an output.
pub open spec fn receives(groups: Seq<Group>, index: u16) -> bool {
    exists|i: int| 0 <= i < groups.len() && given(#[trigger] groups[i].outputs, index)
}

/// Whether units are assigned to an output.
pub open spec fn given(outputs: Seq<AssetAssignment>, index: u16) -> bool {
    exists|j: int| 0 <= j < outputs.len() && (#[trigger] outputs[j]).index == index
}

proof fn lemma_with_indexes(known: Seq<u16>, outputs: Seq<AssetAssignment>, index: u16)
    ensures
        gamelog::with_indexes(known, outputs).contains(index) <==> known.contains(index) || given(
            outputs,
            index,
        ),
    decreases outputs.len(),
{
    if outputs.len() > 0 {
        let rest = outputs.drop_last();
        let last = outputs.last().index;
        lemma_with_indexes(known, rest, index);
        lemma_with_indexes(known, rest, last);
        let before = gamelog::with_indexes(known, rest);
        if given(rest, index) {
            let j = choose|j: int| 0 <= j < rest.len() && (#[trigger] rest[j]).index == index;
            assert(outputs[j].index == index);
        }
        if last == index {
            assert(outputs[outputs.len() - 1].index == index);
        }
        if given(outputs, index) && last != index {
            let j = choose|j: int| 0 <= j < outputs.len() && (#[trigger] outputs[j]).index == index;
            assert(rest[j].index == index);
        }
        if !before.contains(last) {
            let after = before.push(last);
            assert(after[before.len() as int] == last);
            if before.contains(index) {
                assert(after[before.index_of(index)] == index);
            }
            if after.contains(index) && index != last {
                assert(before[after.index_of(index)] == index);
            }
        }
    } else {
        assert(!given(outputs, index));
    }
}

proof fn lemma_preserved(groups: Seq<Group>, index: u16)
    ensures
        gamelog::preserved_indexes(groups).contains(index) <==> receives(groups, index),
    decreases groups.len(),
{
    if groups.len() > 0 {
        let rest = groups.drop_last();
        let n = groups.len() - 1;
        lemma_preserved(rest, index);
        lemma_with_indexes(gamelog::preserved_indexes(rest), groups.last().outputs, index);
        if receives(rest, index) {
            let i = choose|i: int| 0 <= i < rest.len() && given(#[trigger] rest[i].outputs, index);
            assert(given(groups[i].outputs, index));
        }
        if given(groups.last().outputs, index) {
            assert(given(groups[n].outputs, index));
        }
        if receives(groups, index) {
            let i = choose|i: int|
                0 <= i < groups.len() && given(#[trigger] groups[i].outputs, index);
            if i < n {
                assert(given(rest[i].outputs, index));
            }
        }
    }
}

/// Nothing else is read as a burn.
pub proof fn law_burns_lose_exactly_one_unit(outputs: Seq<Output>, burn: Burn)
    requires
        gamelog::burn_of(outputs) == Some(burn),
    ensures
        gamelog::receipt_of(outputs) == Some(burn.receipt),
        gamelog::asset_packet_of(outputs) matches Some(groups) && exists|k: int| #[trigger]
            burns_in(groups, outputs.len(), k) && groups[k].asset_id == Some(burn.asset_id),
{
    let groups = gamelog::asset_packet_of(outputs).unwrap();
    let k = choose|c: int| 0 <= c < groups.len() && gamelog::burns_unit(#[trigger] groups[c]);
    assert forall|i: int| 0 <= i < groups.len() implies moves_a_move(
        #[trigger] groups[i],
        outputs.len(),
    ) by {
        let group = groups[i];
        assert(gamelog::moves_units(group, outputs.len()));
    }
    assert forall|i: int| 0 <= i < groups.len() implies gamelog::total(
        (#[trigger] groups[i]).inputs,
    ) == gamelog::total(groups[i].outputs) + if i == k {
        1nat
    } else {
        0
    } by {
        assert(gamelog::moves_units(groups[i], outputs.len()));
        assert(gamelog::burns_unit(groups[k]));
        if i < k {
            assert(!(gamelog::burns_unit(groups[i]) && gamelog::burns_unit(groups[k])));
        } else if i > k {
            assert(!(gamelog::burns_unit(groups[k]) && gamelog::burns_unit(groups[i])));
        }
    }
    assert(burns_in(groups, outputs.len(), k));
}

/// The packets of extensions in an output; none where it is no extension.
pub open spec fn packets_in(output: Output) -> Option<Seq<(u8, Seq<u8>)>> {
    let items = script::script_items(output.script);
    if items.len() >= 2 && items[0] == Item::Op(0x6a) {
        match items[1] {
            Item::Push(data) if data.len() >= 3 && data[0] == 0x41 && data[1] == 0x52 && data[2]
                == 0x4b => script::extension_packets(data, usize::BITS),
            _ => Some(Seq::empty()),
        }
    } else {
        Some(Seq::empty())
    }
}

proof fn lemma_asset_payloads_step(outputs: Seq<Output>)
    requires
        outputs.len() > 0,
    ensures
        gamelog::asset_payloads_of(outputs) == match (
            gamelog::asset_payloads_of(outputs.drop_last()),
            packets_in(outputs.last()),
        ) {
            (Some(found), Some(packets)) => Some(found + gamelog::asset_payloads(packets)),
            _ => None,
        },
{
    if let Some(found) = gamelog::asset_payloads_of(outputs.drop_last()) {
        let none = Seq::<(u8, Seq<u8>)>::empty();
        assert(gamelog::asset_payloads(none) =~= Seq::empty());
        assert(found + gamelog::asset_payloads(none) =~= found);
    }
}

/// Whether none of some packets is an asset packet, which has type zero.
pub open spec fn has_no_assets(packets: Seq<(u8, Seq<u8>)>) -> bool {
    forall|j: int| 0 <= j < packets.len() ==> (#[trigger] packets[j]).0 != 0
}

proof fn lemma_no_asset_payloads(packets: Seq<(u8, Seq<u8>)>)
    requires
        has_no_assets(packets),
    ensures
        gamelog::asset_payloads(packets) == Seq::<Seq<u8>>::empty(),
    decreases packets.len(),
{
    if packets.len() > 0 {
        assert(packets[packets.len() - 1].0 != 0);
        assert(has_no_assets(packets.drop_last()));
        lemma_no_asset_payloads(packets.drop_last());
    }
}

proof fn lemma_only_asset_packet(outputs: Seq<Output>, k: int, raw: Seq<u8>)
    requires
        -1 <= k < outputs.len(),
        k >= 0 ==> packets_in(outputs[k]) == Some(seq![(0u8, raw)]),
        forall|i: int|
            0 <= i < outputs.len() && i != k ==> (packets_in(#[trigger] outputs[i]) matches Some(
                packets,
            ) && has_no_assets(packets)),
    ensures
        gamelog::asset_payloads_of(outputs) == Some(
            if k >= 0 {
                seq![raw]
            } else {
                Seq::empty()
            },
        ),
    decreases outputs.len(),
{
    if outputs.len() > 0 {
        lemma_asset_payloads_step(outputs);
        let rest = outputs.drop_last();
        let n = outputs.len() - 1;
        assert forall|i: int| 0 <= i < rest.len() && i != k implies (packets_in(
            #[trigger] rest[i],
        ) matches Some(packets) && has_no_assets(packets)) by {
            assert(rest[i] == outputs[i]);
        }
        assert(outputs.last() == outputs[n]);
        if k == n {
            lemma_only_asset_packet(rest, -1, raw);
            let one = seq![(0u8, raw)];
            assert(one.drop_last() =~= Seq::empty());
            assert(gamelog::asset_payloads(one) =~= seq![raw]) by {
                reveal_with_fuel(Seq::filter_map, 2);
            }
            assert(Seq::<Seq<u8>>::empty() + seq![raw] =~= seq![raw]);
        } else {
            if k >= 0 {
                assert(rest[k] == outputs[k]);
            }
            lemma_only_asset_packet(rest, k, raw);
            let packets = packets_in(outputs[n]).unwrap();
            lemma_no_asset_payloads(packets);
            let found = gamelog::asset_payloads_of(rest).unwrap();
            assert(found + Seq::<Seq<u8>>::empty() =~= found);
        }
    }
}

/// The asset packet of a transaction is the one in its outputs, wherever that stands and whatever
/// packets of other types there are.
pub proof fn law_the_only_asset_packet_is_read(outputs: Seq<Output>, k: int, raw: Seq<u8>)
    requires
        0 <= k < outputs.len(),
        packets_in(outputs[k]) == Some(seq![(0u8, raw)]),
        forall|i: int|
            0 <= i < outputs.len() && i != k ==> (packets_in(#[trigger] outputs[i]) matches Some(
                packets,
            ) && has_no_assets(packets)),
    ensures
        gamelog::asset_packet_of(outputs) == gamelog::packet_of(raw),
{
    lemma_only_asset_packet(outputs, k, raw);
}

proof fn lemma_asset_payloads_found(outputs: Seq<Output>, k: int)
    requires
        0 <= k < outputs.len(),
        packets_in(outputs[k]) matches Some(packets) && packets.len() == 1 && packets[0].0 == 0,
        gamelog::asset_payloads_of(outputs) is Some,
    ensures
        gamelog::asset_payloads_of(outputs).unwrap().len() >= 1,
    decreases outputs.len(),
{
    lemma_asset_payloads_step(outputs);
    if k < outputs.len() - 1 {
        assert(outputs.drop_last()[k] == outputs[k]);
        lemma_asset_payloads_found(outputs.drop_last(), k);
    } else {
        let packets = packets_in(outputs[k]).unwrap();
        assert(packets.drop_last() =~= Seq::empty());
        assert(gamelog::asset_payloads(packets).len() == 1) by {
            reveal_with_fuel(Seq::filter_map, 2);
        }
    }
}

/// Two asset packets are none: such a transaction neither registers a player nor burns a move.
pub proof fn law_two_asset_packets_are_refused(outputs: Seq<Output>, j: int, k: int)
    requires
        0 <= j < k < outputs.len(),
        packets_in(outputs[j]) matches Some(packets) && packets.len() == 1 && packets[0].0 == 0,
        packets_in(outputs[k]) matches Some(packets) && packets.len() == 1 && packets[0].0 == 0,
    ensures
        gamelog::asset_packet_of(outputs) is None,
        gamelog::burn_of(outputs) is None,
    decreases outputs.len(),
{
    lemma_asset_payloads_step(outputs);
    let rest = outputs.drop_last();
    assert(rest[j] == outputs[j]);
    if gamelog::asset_payloads_of(outputs) is Some {
        lemma_two_asset_payloads(outputs, j, k);
    }
}

proof fn lemma_two_asset_payloads(outputs: Seq<Output>, j: int, k: int)
    requires
        0 <= j < k < outputs.len(),
        packets_in(outputs[j]) matches Some(packets) && packets.len() == 1 && packets[0].0 == 0,
        packets_in(outputs[k]) matches Some(packets) && packets.len() == 1 && packets[0].0 == 0,
        gamelog::asset_payloads_of(outputs) is Some,
    ensures
        gamelog::asset_payloads_of(outputs).unwrap().len() >= 2,
    decreases outputs.len(),
{
    lemma_asset_payloads_step(outputs);
    let rest = outputs.drop_last();
    assert(rest[j] == outputs[j]);
    if k < outputs.len() - 1 {
        assert(rest[k] == outputs[k]);
        lemma_two_asset_payloads(rest, j, k);
    } else {
        lemma_asset_payloads_found(rest, j);
        let packets = packets_in(outputs[k]).unwrap();
        assert(packets.drop_last() =~= Seq::empty());
        assert(gamelog::asset_payloads(packets).len() == 1) by {
            reveal_with_fuel(Seq::filter_map, 2);
        }
    }
}

/// A number is read from the bytes that stand there, seven bits each, the lowest first: one byte
/// below 128 is itself; another byte counts what exceeds 128, and what follows counts 128 times.
pub proof fn law_numbers_have_seven_bits_a_byte(bytes: Seq<u8>, at: int)
    requires
        0 <= at < bytes.len(),
    ensures
        bytes[at] < 128 ==> gamelog::uvarint(bytes, at) == Some((bytes[at] as nat, at + 1)),
        bytes[at] >= 128 && at + 1 < bytes.len() && bytes[at + 1] < 128 ==> gamelog::uvarint(
            bytes,
            at,
        ) == Some(((bytes[at] - 128 + 128 * bytes[at + 1]) as nat, at + 2)),
        bytes[at] >= 128 && at + 2 < bytes.len() && bytes[at + 1] >= 128 && bytes[at + 2] < 128
            ==> gamelog::uvarint(bytes, at) == Some(
            (
                (bytes[at] - 128 + 128 * (bytes[at + 1] - 128) + 16_384 * bytes[at + 2]) as nat,
                at + 3,
            ),
        ),
{
    reveal_with_fuel(gamelog::uvarint_from, 4);
}

} // verus!
