use arkade_city::address::{my_address, player_vtxo};
use arkade_city::arkade::{Network, ServerParams, VtxoRecord};
use arkade_city::chain::{AssetId, OutPoint, Txid};
use arkade_city::entry::{key_mask, network_label, payloads_of, storage_name};
use arkade_city::gamelog::{
    asset_packet_from_tx, move_burn_from_tx, registration_player_script, MoveReceipt,
};
use arkade_city::match_::GAME_ADDRESS;
use arkade_city::psbt::{Psbt, MAX_READABLE_BYTES};
use arkade_city::txbuild::{
    attach_op_return, build_burn_tx, build_event_tx, build_issue_tx, build_message_tx,
    build_move_asset_issuance_tx, build_send_tx, build_sweep_tx, finalize_delay_ms, find_witness_sources, op_return_txout, parse_asset_id_pub,
    server_info, vtxo_input, TxError,
};

fn owner() -> [u8; 32] {
    let secp = bitcoin::key::Secp256k1::new();
    let secret = bitcoin::secp256k1::SecretKey::from_slice(&[7; 32]).unwrap();
    secret.x_only_public_key(&secp).0.serialize()
}

fn params() -> ServerParams {
    let signer = ark_core::ArkAddress::decode(GAME_ADDRESS).unwrap().server();
    let key = bitcoin::CompressedPublicKey(signer.public_key(bitcoin::key::Parity::Even));
    ServerParams {
        server_version: String::new(),
        signer_pk: signer.serialize(),
        forfeit_pk: Vec::new(),
        network: Network::Signet,
        network_name: "mutinynet".to_string(),
        dust_sats: 330,
        vtxo_min_sats: 330,
        unilateral_exit_delay: 0x40_0004,
        max_op_return_outputs: 3,
        checkpoint_tapscript: vec![0x51],
        forfeit_address: bitcoin::Address::p2wpkh(&key, bitcoin::Network::Signet).to_string(),
    }
}

fn record(byte: u8, amount_sats: u64) -> VtxoRecord {
    VtxoRecord {
        outpoint: OutPoint { txid: Txid::from_byte_array([byte; 32]), vout: 1 },
        script: String::new(),
        amount_sats,
        assets: Vec::new(),
        is_spent: false,
        is_preconfirmed: true,
        is_swept: false,
        is_unrolled: false,
        expires_at: None,
        created_at: None,
        ark_txid: None,
        spent_by: None,
    }
}

fn values(psbt: &Psbt) -> Vec<u64> {
    psbt.unsigned_tx().output.iter().map(|output| output.value).collect()
}

#[test]
fn operator_info_needs_valid_keys_and_addresses() {
    assert!(server_info(&params()).is_some());
    let mut unsigned = params();
    unsigned.signer_pk = [0; 32];
    assert!(server_info(&unsigned).is_none());
    let mut nowhere = params();
    nowhere.forfeit_address = "nowhere".to_string();
    assert!(server_info(&nowhere).is_none());
}

#[test]
fn events_leave_dust_change_to_nobody() {
    let (params, owner) = (params(), owner());
    let info = server_info(&params).unwrap();
    let build = |sats: u64| {
        let (tx, checkpoints) =
            build_event_tx(&owner, &params, &info, &record(1, sats), b"hello").unwrap();
        assert_eq!(checkpoints.len(), 1);
        assert!(
            tx.unsigned_tx().input[0].previous_output.txid == checkpoints[0].compute_txid()
        );
        assert!(checkpoints[0].unsigned_tx().input[0].previous_output == record(1, sats).outpoint);
        assert_eq!(payloads_of(&tx), vec![b"hello".to_vec()]);
        values(&tx)
    };
    assert_eq!(build(1_000), vec![330, 670, 0, 0]);
    assert_eq!(build(660), vec![330, 330, 0, 0]);
    assert_eq!(build(659), vec![659, 0, 0]);
    assert_eq!(build(330), vec![330, 0, 0]);
    let poor = build_event_tx(&owner, &params, &info, &record(1, 329), b"hello");
    assert!(matches!(poor, Err(TxError::Builder(text)) if text.contains("cannot cover")));
    let nobody = build_event_tx(&[0; 32], &params, &info, &record(1, 330), b"hello");
    assert!(matches!(nobody, Err(TxError::Contract)));
}

#[test]
fn payments_match_the_builder() {
    let (params, owner) = (params(), owner());
    let info = server_info(&params).unwrap();
    let inputs = [record(1, 400), record(2, 500)];
    let (tx, checkpoints) =
        build_send_tx(&owner, &params, &info, &inputs, GAME_ADDRESS, 500).unwrap();
    assert_eq!(checkpoints.len(), 2);
    assert_eq!(values(&tx), vec![500, 400, 0]);
    let target = ark_core::ArkAddress::decode(GAME_ADDRESS).unwrap();
    let own = ark_core::ArkAddress::decode(&my_address(&owner, &params).unwrap()).unwrap();
    let outputs = &tx.unsigned_tx().output;
    assert_eq!(outputs[0].script_pubkey, target.to_p2tr_script_pubkey().into_bytes());
    assert_eq!(outputs[1].script_pubkey, own.to_p2tr_script_pubkey().into_bytes());
    let (folded, _) = build_send_tx(&owner, &params, &info, &inputs, GAME_ADDRESS, 600).unwrap();
    assert_eq!(values(&folded), vec![900, 0]);
    let (message, _) =
        build_message_tx(&owner, &params, &info, &inputs, GAME_ADDRESS, 600, b"start").unwrap();
    assert_eq!(values(&message), vec![900, 0, 0]);
    assert_eq!(payloads_of(&message), vec![b"start".to_vec()]);
    assert!(build_send_tx(&owner, &params, &info, &inputs, "nowhere", 500).is_err());
    assert!(build_send_tx(&owner, &params, &info, &[], GAME_ADDRESS, 500).is_err());
}

#[test]
fn issued_units_can_be_burned() {
    let (params, owner) = (params(), owner());
    let info = server_info(&params).unwrap();
    let metadata = vec![("game".to_string(), "x".to_string())];
    let (issue, _, asset) =
        build_issue_tx(&owner, &params, &info, &record(1, 330), 7, metadata.clone()).unwrap();
    assert!(asset == AssetId { txid: issue.compute_txid(), group_index: 0 });
    let zero = build_issue_tx(&owner, &params, &info, &record(1, 330), 0, metadata);
    assert!(matches!(zero, Err(TxError::Builder(_))));

    let mut carrier = record(3, 330);
    carrier.assets = vec![(asset.to_string(), 7), ("no id".to_string(), 1)];
    let receipt = MoveReceipt { sequence: 5 }.encode();
    let (tx, _) =
        build_burn_tx(&owner, &params, &info, &[carrier.clone()], asset, 1, &receipt).unwrap();
    let burn = move_burn_from_tx(tx.unsigned_tx()).unwrap();
    assert!(burn.asset_id == asset);
    assert_eq!(burn.receipt.sequence, 5);
    assert_eq!(burn.preserved_output_indexes, vec![0]);
    assert!(build_burn_tx(&owner, &params, &info, &[carrier], asset, 8, &receipt).is_err());
}

#[test]
fn data_is_attached_before_the_anchor() {
    let (params, owner) = (params(), owner());
    let info = server_info(&params).unwrap();
    let (mut tx, _) =
        build_send_tx(&owner, &params, &info, &[record(1, 330)], GAME_ADDRESS, 330).unwrap();
    let before = tx.unsigned_tx().output.len();
    let anchor = tx.unsigned_tx().output[before - 1].script_pubkey.clone();
    attach_op_return(&mut tx, &[9; 300]).unwrap();
    let outputs = &tx.unsigned_tx().output;
    assert_eq!(outputs.len(), before + 1);
    assert_eq!(outputs[before].script_pubkey, anchor);
    assert_eq!(payloads_of(&tx), vec![vec![9; 300]]);
    let outside = bitcoin::Psbt::deserialize(&tx.serialize()).unwrap();
    assert_eq!(outside.outputs.len(), outside.unsigned_tx.output.len());
    assert_eq!(outside.unsigned_tx.compute_txid().to_string(), tx.compute_txid().to_string());
    assert_eq!(
        op_return_txout(b"abc").unwrap().script_pubkey,
        vec![0x6a, 3, b'a', b'b', b'c']
    );
    assert_eq!(
        Psbt::deserialize(&tx.serialize()).unwrap().serialize(),
        tx.serialize()
    );
}

#[test]
fn large_payloads_are_attached_too() {
    let (params, owner) = (params(), owner());
    let info = server_info(&params).unwrap();
    let (mut tx, _) =
        build_send_tx(&owner, &params, &info, &[record(1, 330)], GAME_ADDRESS, 330).unwrap();
    let before = tx.unsigned_tx().output.len();
    let first = vec![7; MAX_READABLE_BYTES];
    attach_op_return(&mut tx, &first).unwrap();
    attach_op_return(&mut tx, b"second").unwrap();
    assert_eq!(payloads_of(&tx), vec![first, b"second".to_vec()]);
    assert_eq!(tx.unsigned_tx().output.len(), before + 2);
    assert_eq!(tx.clone().compute_txid().to_string(), tx.compute_txid().to_string());
    assert!(tx.serialize().len() > MAX_READABLE_BYTES);
    assert!(Psbt::deserialize(&tx.serialize()).is_none());
}

#[test]
fn a_built_registration_is_read_as_one() {
    let (params, owner) = (params(), owner());
    let info = server_info(&params).unwrap();
    let game = ark_core::ArkAddress::decode(GAME_ADDRESS).unwrap();
    let game_script = game.to_p2tr_script_pubkey().to_hex_string();
    let own = ark_core::ArkAddress::decode(&my_address(&owner, &params).unwrap()).unwrap();
    let own_script = own.to_p2tr_script_pubkey().to_hex_string();
    for (sats, expected) in [(660, vec![330, 330, 0, 0]), (1_000, vec![330, 330, 340, 0, 0])] {
        let funding = [record(1, sats)];
        let (tx, checkpoints) =
            build_move_asset_issuance_tx(&owner, &params, &info, GAME_ADDRESS, &funding).unwrap();
        assert_eq!(values(&tx), expected);
        assert_eq!(checkpoints.len(), 1);
        assert_eq!(
            registration_player_script(tx.unsigned_tx(), &game_script, 330),
            Some(own_script.clone())
        );
    }
    let poor = [record(1, 659)];
    let result = build_move_asset_issuance_tx(&owner, &params, &info, GAME_ADDRESS, &poor);
    assert!(matches!(result, Err(TxError::Builder(_))));
    let result = build_move_asset_issuance_tx(&owner, &params, &info, "nowhere", &[record(1, 660)]);
    assert!(matches!(result, Err(TxError::Builder(_))));
}

#[test]
fn a_sweep_carries_everything() {
    let (params, owner) = (params(), owner());
    let info = server_info(&params).unwrap();
    let asset = |byte: u8| AssetId { txid: Txid::from_byte_array([byte; 32]), group_index: 2 };
    let mut first = record(1, 400);
    first.assets = vec![(asset(9).to_string(), 5), ("no id".to_string(), 1)];
    let mut second = record(2, 500);
    second.assets = vec![(asset(8).to_string(), 7), (asset(9).to_string(), 11)];
    let inputs = [first, second];
    let (tx, checkpoints) =
        build_sweep_tx(&owner, &params, &info, &inputs, GAME_ADDRESS).unwrap();
    assert_eq!(values(&tx), vec![900, 0, 0]);
    assert_eq!(checkpoints.len(), 2);
    let packet = asset_packet_from_tx(tx.unsigned_tx()).unwrap();
    let carried: Vec<_> = packet
        .groups
        .iter()
        .map(|group| {
            assert_eq!(group.outputs.len(), 1);
            assert_eq!(group.outputs[0].index, 0);
            (group.asset_id.unwrap().to_string(), group.outputs[0].amount)
        })
        .collect();
    assert_eq!(carried, vec![(asset(8).to_string(), 7), (asset(9).to_string(), 16)]);
    let plain = [record(1, 400)];
    let (tx, _) = build_sweep_tx(&owner, &params, &info, &plain, GAME_ADDRESS).unwrap();
    assert_eq!(values(&tx), vec![400, 0]);
    let result = build_sweep_tx(&owner, &params, &info, &plain, "nowhere");
    assert!(matches!(result, Err(TxError::Builder(_))));
}

#[test]
fn stripped_witnesses_are_found_by_checkpoint() {
    let (params, owner) = (params(), owner());
    let info = server_info(&params).unwrap();
    let inputs = [record(1, 400), record(2, 500)];
    let (tx, checkpoints) =
        build_send_tx(&owner, &params, &info, &inputs, GAME_ADDRESS, 900).unwrap();
    let reversed = [checkpoints[1].clone(), checkpoints[0].clone()];
    assert_eq!(
        find_witness_sources(&tx, &reversed, &[false, false]),
        Some(vec![Some(1), Some(0)])
    );
    assert_eq!(
        find_witness_sources(&tx, &reversed, &[true, false]),
        Some(vec![None, Some(0)])
    );
    assert_eq!(find_witness_sources(&checkpoints[0], &reversed, &[false, false]), None);
}

#[test]
fn finalizing_is_tried_three_times() {
    let delays: Vec<Option<u64>> = (0..4).map(finalize_delay_ms).collect();
    assert_eq!(delays, vec![Some(0), Some(500), Some(1_000), None]);
}

#[test]
fn asset_ids_and_inputs_are_read() {
    let id = format!("{}0500", "ab".repeat(32));
    assert_eq!(parse_asset_id_pub(&id).unwrap().group_index, 5);
    assert!(parse_asset_id_pub("ab").is_none());
    let vtxo = player_vtxo(&owner(), &params()).unwrap();
    assert!(vtxo_input(&record(1, 330), &vtxo).is_some());
}

#[test]
fn entry_points_keep_networks_apart() {
    assert_eq!(key_mask(true, false, false, true), 9);
    assert_eq!(key_mask(false, true, true, false), 6);
    assert_eq!(network_label(Network::Bitcoin), "mainnet");
    assert_eq!(network_label(Network::Regtest), "signet");
    assert_eq!(storage_name("city:key", Network::Bitcoin), "city:key:mainnet");
    assert_eq!(storage_name("city:key", Network::Signet), "city:key:signet");
}
