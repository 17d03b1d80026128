use ark_core::asset::packet::{AssetGroup, AssetInput, AssetOutput, Packet};
use arkade_city::chain::{AssetId, Transaction, TxOut, Txid};
use arkade_city::gamelog::{
    asset_packet_from_tx, canonical_moves, decode_asset_metadata, decode_asset_packet,
    direction_from_metadata, move_burn_from_tx, payloads_from_tx, read_uvarint, receipt_from_tx,
    registration_player_script, MoveEvent, MoveReceipt,
    DIRECTIONS, DIR_DOWN, GAME_ID, MOVE_SUPPLY, PLAYER_ASSET_OUTPUT_INDEX,
};
use bitcoin::hex::DisplayHex;

fn txid(byte: u8) -> Txid {
    Txid::from_byte_array([byte; 32])
}

fn outside_asset(id: AssetId) -> ark_core::asset::AssetId {
    ark_core::asset::AssetId {
        txid: bitcoin::hashes::Hash::from_byte_array(id.txid.to_byte_array()),
        group_index: id.group_index,
    }
}

fn encode_metadata(pairs: &[(&str, &str)]) -> String {
    let mut bytes = vec![pairs.len() as u8];
    for (key, value) in pairs {
        bytes.push(key.len() as u8);
        bytes.extend_from_slice(key.as_bytes());
        bytes.push(value.len() as u8);
        bytes.extend_from_slice(value.as_bytes());
    }
    bytes.to_lower_hex_string()
}

fn packet_output(packet: Packet) -> TxOut {
    let output = packet.to_txout();
    TxOut {
        value: output.value.to_sat(),
        script_pubkey: output.script_pubkey.into_bytes(),
    }
}

fn packet_tx(packet: Packet) -> Transaction {
    Transaction {
        version: 3,
        lock_time: 0,
        input: Vec::new(),
        output: vec![
            TxOut {
                value: 330,
                script_pubkey: Vec::new(),
            },
            packet_output(packet),
        ],
    }
}

fn p2tr_script(byte: u8) -> Vec<u8> {
    let mut bytes = vec![0x51, 0x20];
    bytes.extend_from_slice(&[byte; 32]);
    bytes
}

fn data_output(payload: &[u8]) -> TxOut {
    let data = bitcoin::script::PushBytesBuf::try_from(payload.to_vec()).unwrap();
    TxOut {
        value: 0,
        script_pubkey: bitcoin::script::Builder::new()
            .push_opcode(bitcoin::opcodes::all::OP_RETURN)
            .push_slice(&data)
            .into_script()
            .into_bytes(),
    }
}

fn receipt_output(sequence: u32) -> TxOut {
    data_output(&MoveReceipt { sequence }.encode())
}

fn issuance() -> Packet {
    let groups = DIRECTIONS
        .iter()
        .map(|direction| AssetGroup {
            asset_id: None,
            control_asset: None,
            metadata: Some(vec![
                ("game".to_string(), GAME_ID.to_string()),
                ("move".to_string(), direction.to_string()),
            ]),
            inputs: Vec::new(),
            outputs: vec![AssetOutput {
                output_index: PLAYER_ASSET_OUTPUT_INDEX,
                amount: MOVE_SUPPLY,
            }],
        })
        .collect();
    Packet { groups }
}

fn burn_group(asset_id: AssetId, input: u64, output: u64) -> AssetGroup {
    AssetGroup {
        asset_id: Some(outside_asset(asset_id)),
        control_asset: None,
        metadata: None,
        inputs: vec![AssetInput {
            input_index: 0,
            amount: input,
        }],
        outputs: vec![AssetOutput {
            output_index: 0,
            amount: output,
        }],
    }
}

#[test]
fn receipt_roundtrip_and_rejection() {
    let receipt = MoveReceipt { sequence: 42 };
    assert_eq!(MoveReceipt::decode(&receipt.encode()), Some(receipt));
    assert_eq!(MoveReceipt::decode(b"AM\x01\0\0\0\0"), None);
    assert_eq!(MoveReceipt::decode(b"short"), None);

    let mut tx = packet_tx(Packet { groups: Vec::new() });
    assert_eq!(receipt_from_tx(&tx), None);
    tx.output.push(receipt_output(1));
    assert_eq!(receipt_from_tx(&tx), Some(MoveReceipt { sequence: 1 }));
    tx.output.push(receipt_output(2));
    assert_eq!(receipt_from_tx(&tx), None);
}

#[test]
fn metadata_identifies_direction() {
    let raw = encode_metadata(&[("game", GAME_ID), ("move", "s")]);
    assert_eq!(direction_from_metadata(&raw, 2), Some(DIR_DOWN));
    assert_eq!(direction_from_metadata(&raw, 1), None);
    assert_eq!(direction_from_metadata("not hex", 2), None);
}

#[test]
fn canonical_stream_requires_contiguous_sequences() {
    let player = txid(9);
    let events = vec![
        MoveEvent {
            txid: txid(4),
            player,
            sequence: 1,
            direction: 1,
        },
        MoveEvent {
            txid: txid(3),
            player,
            sequence: 0,
            direction: 0,
        },
        MoveEvent {
            txid: txid(2),
            player,
            sequence: 1,
            direction: 2,
        },
        MoveEvent {
            txid: txid(5),
            player,
            sequence: 3,
            direction: 3,
        },
    ];
    assert_eq!(canonical_moves(&events).get(player).unwrap(), &vec![0, 2]);
}

#[test]
fn validates_canonical_registration_and_issuance() {
    let game_script = p2tr_script(1);
    let player_script = p2tr_script(2);
    let mut tx = packet_tx(issuance());
    tx.output.insert(
        0,
        TxOut {
            value: 330,
            script_pubkey: game_script.clone(),
        },
    );
    tx.output[1] = TxOut {
        value: 330,
        script_pubkey: player_script.clone(),
    };
    assert_eq!(
        registration_player_script(&tx, &game_script.to_lower_hex_string(), 330),
        Some(player_script.to_lower_hex_string())
    );
}

#[test]
fn validates_one_unit_protocol_burn() {
    let asset_id = AssetId {
        txid: txid(8),
        group_index: 0,
    };
    let mut tx = packet_tx(Packet {
        groups: vec![burn_group(asset_id, MOVE_SUPPLY, MOVE_SUPPLY - 1)],
    });
    tx.output.push(receipt_output(7));
    let burn = move_burn_from_tx(&tx).unwrap();
    assert_eq!(burn.receipt, MoveReceipt { sequence: 7 });
    assert!(burn.asset_id == asset_id);
    assert_eq!(burn.preserved_output_indexes, vec![0]);
}

#[test]
fn receipt_bytes_are_fixed() {
    assert_eq!(
        MoveReceipt {
            sequence: 0x0102_0304
        }
        .encode(),
        [0x41, 0x4d, 2, 4, 3, 2, 1]
    );
}

#[test]
fn registration_rejects_other_shapes() {
    let game_hex = p2tr_script(1).to_lower_hex_string();
    let good = || {
        let mut tx = packet_tx(issuance());
        tx.output.insert(
            0,
            TxOut {
                value: 330,
                script_pubkey: p2tr_script(1),
            },
        );
        tx.output[1] = TxOut {
            value: 330,
            script_pubkey: p2tr_script(2),
        };
        tx
    };
    assert!(registration_player_script(&good(), &game_hex, 330).is_some());
    assert_eq!(registration_player_script(&good(), &game_hex, 331), None);
    let mut with_receipt = good();
    with_receipt.output.push(receipt_output(0));
    assert_eq!(registration_player_script(&with_receipt, &game_hex, 330), None);
    let mut not_taproot = good();
    not_taproot.output[1].script_pubkey = vec![1, 2, 3];
    assert_eq!(registration_player_script(&not_taproot, &game_hex, 330), None);
    let mut own_script = good();
    own_script.output[1].script_pubkey = p2tr_script(1);
    assert_eq!(registration_player_script(&own_script, &game_hex, 330), None);
    let mut twice = good();
    twice.output.push(TxOut {
        value: 330,
        script_pubkey: p2tr_script(1),
    });
    assert_eq!(registration_player_script(&twice, &game_hex, 330), None);
    let mut groups = issuance();
    groups.groups.swap(0, 1);
    let mut swapped = good();
    swapped.output[2] = packet_output(groups);
    assert_eq!(registration_player_script(&swapped, &game_hex, 330), None);
}

#[test]
fn burns_of_two_units_or_two_players_are_rejected() {
    let first = AssetId {
        txid: txid(8),
        group_index: 0,
    };
    let second = AssetId {
        txid: txid(8),
        group_index: 3,
    };
    let stranger = AssetId {
        txid: txid(7),
        group_index: 2,
    };
    let burn = |groups: Vec<AssetGroup>| {
        let mut tx = packet_tx(Packet { groups });
        tx.output.push(receipt_output(1));
        move_burn_from_tx(&tx)
    };
    let kept = burn(vec![burn_group(first, 9, 9), burn_group(second, 4, 3)]).unwrap();
    assert!(kept.asset_id == second);
    assert!(burn(vec![burn_group(first, 9, 7)]).is_none());
    assert!(burn(vec![burn_group(first, 9, 9)]).is_none());
    assert!(burn(vec![burn_group(first, 9, 8), burn_group(second, 4, 3)]).is_none());
    assert!(burn(vec![burn_group(first, 9, 9), burn_group(stranger, 4, 3)]).is_none());
    assert!(burn(vec![burn_group(first, 9, 9), burn_group(first, 4, 3)]).is_none());
    let outside = AssetId {
        txid: txid(8),
        group_index: 4,
    };
    assert!(burn(vec![burn_group(outside, 9, 8)]).is_none());
}

#[test]
fn payloads_skip_extensions_and_funded_outputs() {
    let mut tx = packet_tx(issuance());
    tx.output.push(data_output(b"hello"));
    tx.output.push(data_output(b"ARKive"));
    tx.output.push(data_output(b""));
    let mut funded = data_output(b"funded");
    funded.value = 1;
    tx.output.push(funded);
    assert_eq!(payloads_from_tx(&tx), vec![b"hello".to_vec(), Vec::new()]);
}

#[test]
fn one_asset_packet_is_read_and_two_are_refused() {
    let mut tx = packet_tx(issuance());
    let packet = asset_packet_from_tx(&tx).unwrap();
    assert_eq!(packet.groups.len(), 4);
    assert_eq!(
        packet.groups[2].metadata.as_ref().unwrap()[1],
        ("move".to_string(), "s".to_string())
    );
    let mut broken = packet_tx(issuance());
    broken.output.push(data_output(b"ARKive"));
    assert!(asset_packet_from_tx(&broken).is_none());
    tx.output.push(packet_output(issuance()));
    assert!(asset_packet_from_tx(&tx).is_none());
}

#[test]
fn metadata_is_read_to_the_last_byte() {
    let raw = encode_metadata(&[("k", "v")]);
    assert_eq!(
        decode_asset_metadata(&raw),
        Some(vec![("k".to_string(), "v".to_string())])
    );
    assert_eq!(decode_asset_metadata(&format!("{raw}00")), None);
    assert_eq!(decode_asset_metadata("0101ff0176"), None);
    assert_eq!(decode_asset_metadata("e907"), None);
    assert_eq!(decode_asset_metadata("00"), Some(Vec::new()));
    assert_eq!(decode_asset_metadata("8000"), Some(Vec::new()));
    assert_eq!(decode_asset_metadata("0"), None);
}

#[test]
fn texts_of_ids_read_back() {
    let mut bytes = [0u8; 32];
    bytes[0] = 0xab;
    let id = Txid::from_byte_array(bytes);
    let text = id.to_string();
    assert_eq!(text.len(), 64);
    assert!(text.ends_with("ab"));
    assert!(Txid::from_text(&text) == Some(id));
    assert!(Txid::from_text(&text.to_uppercase()) == Some(id));
    assert!(Txid::from_text("ab").is_none());
    assert_eq!(
        AssetId {
            txid: id,
            group_index: 0x0102
        }
        .to_string(),
        format!("{text}0201")
    );
    assert_eq!(
        outside_asset(AssetId {
            txid: id,
            group_index: 0x0102
        })
        .to_string(),
        format!("{text}0201")
    );
}

fn packet_bytes_are_read(bytes: &[u8]) -> Option<usize> {
    let output = ark_core::extension::packet_txout(0, bytes);
    let mut tx = packet_tx(issuance());
    tx.output = vec![TxOut { value: 0, script_pubkey: output.script_pubkey.into_bytes() }];
    asset_packet_from_tx(&tx).map(|packet| packet.groups.len())
}

#[test]
fn packets_are_consumed_exactly() {
    let bytes = issuance().encode();
    assert_eq!(packet_bytes_are_read(&bytes), Some(4));
    for n in 0..bytes.len() {
        assert_eq!(packet_bytes_are_read(&bytes[..n]), None);
    }
    for more in [0, 1, 0x80, 0xff] {
        assert_eq!(packet_bytes_are_read(&[&bytes[..], &[more]].concat()), None);
    }
    assert_eq!(packet_bytes_are_read(&[0]), None);
}

#[test]
fn numbers_of_units_have_at_most_ten_digits() {
    let amount = |digits: &[u8]| {
        let bytes = [&[1, 0, 0, 1, 1, 1, 0][..], digits].concat();
        let output = ark_core::extension::packet_txout(0, &bytes);
        let mut tx = packet_tx(issuance());
        tx.output = vec![TxOut { value: 0, script_pubkey: output.script_pubkey.into_bytes() }];
        asset_packet_from_tx(&tx).map(|packet| packet.groups[0].outputs[0].amount)
    };
    assert_eq!(amount(&[0xe5, 0x8e, 0x26]), Some(624_485));
    assert_eq!(amount(&[0xe5, 0x8e, 0x26, 0xff]), None);
    assert_eq!(amount(&[&[0xff; 9][..], &[1]].concat()), Some(u64::MAX));
    assert_eq!(amount(&[&[0xff; 9][..], &[2]].concat()), None);
    assert_eq!(amount(&[0x80]), None);
    assert_eq!(amount(&[]), None);
    assert_eq!(amount(&[0x80, 0x00]), Some(0));
    for value in [0u64, 127, 128, 16_383, 16_384, u64::MAX / 2, u64::MAX] {
        let mut digits = Vec::new();
        ark_core::extension::encode_uvarint(&mut digits, value);
        assert_eq!(amount(&digits), Some(value));
    }
}

#[test]
fn canonical_moves_ignore_arrival_order() {
    let event = |tx: u8, player: u8, sequence: u32, direction: u8| MoveEvent {
        txid: txid(tx),
        player: txid(player),
        sequence,
        direction,
    };
    let mut events = vec![
        event(4, 9, 1, 1),
        event(3, 9, 0, 0),
        event(2, 9, 1, 2),
        event(6, 8, 0, 3),
        event(5, 9, 2, 3),
        event(7, 7, 1, 1),
    ];
    for _ in 0..events.len() {
        events.rotate_left(1);
        for list in [events.clone(), events.iter().rev().copied().collect()] {
            let streams = canonical_moves(&list);
            assert_eq!(streams.get(txid(9)).unwrap(), &vec![0, 2, 3]);
            assert_eq!(streams.get(txid(8)).unwrap(), &vec![3]);
            assert_eq!(streams.get(txid(7)).unwrap(), &Vec::<u8>::new());
            assert_eq!(streams.len(), 3);
        }
    }
}

#[test]
fn numbers_are_read_from_where_the_cursor_stands() {
    let bytes = [0xff, 0xac, 0x02, 0x07, 0x80];
    let mut cursor = 1;
    assert_eq!(read_uvarint(&bytes, &mut cursor), Some(300));
    assert_eq!(cursor, 3);
    assert_eq!(read_uvarint(&bytes, &mut cursor), Some(7));
    assert_eq!(cursor, 4);
    assert_eq!(read_uvarint(&bytes, &mut cursor), None);
    assert_eq!(cursor, 5);
    assert_eq!(read_uvarint(&bytes, &mut cursor), None);
    assert_eq!(cursor, 5);
    let mut largest = vec![0xff; 9];
    largest.push(1);
    let mut cursor = 0;
    assert_eq!(read_uvarint(&largest, &mut cursor), Some(u64::MAX));
    assert_eq!(cursor, 10);
    largest[9] = 2;
    let mut cursor = 0;
    assert_eq!(read_uvarint(&largest, &mut cursor), None);
    assert_eq!(cursor, 10);
}

#[test]
fn packets_have_no_other_ends() {
    let bytes = issuance().encode();
    assert_eq!(decode_asset_packet(&bytes).unwrap().groups.len(), 4);
    for n in 0..bytes.len() {
        assert!(decode_asset_packet(&bytes[..n]).is_none());
    }
    let mut longer = bytes;
    longer.push(0);
    assert!(decode_asset_packet(&longer).is_none());
}
