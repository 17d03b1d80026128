use ark_core::asset::packet::{AssetGroup, AssetInput, AssetOutput, Packet};
use arkade_city::arkade::VtxoRecord;
use arkade_city::chain::Txid;
use arkade_city::game::ACTION_RIGHT;
use arkade_city::gamelog::MoveReceipt;
use arkade_city::match_::{extract_spent_outpoint, valid_registration_total, GAME_ADDRESS};
use arkade_city::pending::{
    checkpoint_inputs_were_spent_by, is_fresh_prepared_action, pending_action_from_journal,
    pending_action_to_journal, PendingAction, PendingFinalize, UnknownSubmission,
};
use arkade_city::psbt::Psbt;

fn outside_psbt(byte: u8) -> bitcoin::Psbt {
    bitcoin::Psbt::from_unsigned_tx(bitcoin::Transaction {
        version: bitcoin::transaction::Version::TWO,
        lock_time: bitcoin::absolute::LockTime::ZERO,
        input: vec![bitcoin::TxIn {
            previous_output: bitcoin::OutPoint {
                txid: bitcoin::hashes::Hash::from_byte_array([byte; 32]),
                vout: 0,
            },
            script_sig: bitcoin::ScriptBuf::new(),
            sequence: bitcoin::Sequence::MAX,
            witness: bitcoin::Witness::new(),
        }],
        output: vec![bitcoin::TxOut {
            value: bitcoin::Amount::from_sat(330),
            script_pubkey: bitcoin::ScriptBuf::new(),
        }],
    })
    .unwrap()
}

fn inside(psbt: &bitcoin::Psbt) -> Psbt {
    Psbt::deserialize(&psbt.serialize()).unwrap()
}

fn test_psbt(byte: u8) -> Psbt {
    inside(&outside_psbt(byte))
}

fn test_action_psbt(byte: u8, direction: u8, sequence: u32) -> Psbt {
    let mut psbt = outside_psbt(byte);
    ark_core::asset::packet::add_asset_packet_to_psbt(
        &mut psbt,
        &Packet {
            groups: vec![AssetGroup {
                asset_id: Some(ark_core::asset::AssetId {
                    txid: bitcoin::hashes::Hash::from_byte_array([9; 32]),
                    group_index: u16::from(direction),
                }),
                control_asset: None,
                metadata: None,
                inputs: vec![AssetInput { input_index: 0, amount: 2 }],
                outputs: vec![AssetOutput { output_index: 0, amount: 1 }],
            }],
        },
    )
    .unwrap();
    let payload = MoveReceipt { sequence }.encode();
    let data = bitcoin::script::PushBytesBuf::try_from(payload.to_vec()).unwrap();
    psbt.unsigned_tx.output.push(bitcoin::TxOut {
        value: bitcoin::Amount::ZERO,
        script_pubkey: bitcoin::script::Builder::new()
            .push_opcode(bitcoin::opcodes::all::OP_RETURN)
            .push_slice(&data)
            .into_script(),
    });
    psbt.outputs.push(Default::default());
    inside(&psbt)
}

#[test]
fn extracts_spent_outpoint() {
    let txid = "a".repeat(64);
    let body = format!("submit failed: {txid}:2 already spent");
    assert_eq!(
        extract_spent_outpoint(&body).as_deref(),
        Some(format!("{txid}:2").as_str())
    );
}

#[test]
fn hard_coded_address_has_expected_script() {
    let address = ark_core::ArkAddress::decode(GAME_ADDRESS).unwrap();
    assert_eq!(
        address.to_p2tr_script_pubkey().to_hex_string(),
        "51201bb845d8a4812365639aed19b3000d73fee6a8ed9f9e5da2bd7adf2c08659d4a"
    );
}

#[test]
fn registration_total_never_creates_sub_minimum_change() {
    assert!(valid_registration_total(660, 660, 330));
    assert!(!valid_registration_total(700, 660, 330));
    assert!(!valid_registration_total(989, 660, 330));
    assert!(valid_registration_total(990, 660, 330));
}

#[test]
fn registration_totals_near_the_limit_leave_no_small_change() {
    assert!(!valid_registration_total(u64::MAX, u64::MAX - 1, 330));
    assert!(valid_registration_total(u64::MAX, u64::MAX - 330, 330));
    assert!(valid_registration_total(u64::MAX, u64::MAX, 330));
    assert!(!valid_registration_total(0, u64::MAX, 0));
}

#[test]
fn only_unrestored_unknown_actions_use_the_fresh_submit_path() {
    let signed_ark = test_psbt(1);
    let txid = signed_ark.compute_txid();
    let unknown = PendingAction::UnknownSweep {
        submission: UnknownSubmission {
            txid,
            signed_ark: signed_ark.clone(),
            checkpoints: vec![test_psbt(2)],
            last_error: String::new(),
        },
    };
    let finalizing = PendingAction::Sweep {
        pending: PendingFinalize {
            txid,
            signed_ark,
            checkpoints: vec![test_psbt(2)],
            last_error: String::new(),
        },
    };

    assert!(is_fresh_prepared_action(Some(&unknown), false));
    assert!(!is_fresh_prepared_action(Some(&unknown), true));
    assert!(!is_fresh_prepared_action(Some(&finalizing), false));
    assert!(!is_fresh_prepared_action(None, false));
}

#[test]
fn sweep_completion_requires_the_exact_spending_transaction() {
    let checkpoint = test_psbt(3);
    let txid = Txid::from_byte_array([4; 32]);
    let outpoint = checkpoint.unsigned_tx().input[0].previous_output;
    let mut record = VtxoRecord {
        outpoint,
        script: String::new(),
        amount_sats: 330,
        assets: Vec::new(),
        is_spent: false,
        is_preconfirmed: true,
        is_swept: false,
        is_unrolled: false,
        expires_at: None,
        created_at: None,
        ark_txid: None,
        spent_by: None,
    };
    assert!(!checkpoint_inputs_were_spent_by(
        std::slice::from_ref(&checkpoint),
        txid,
        std::slice::from_ref(&record)
    ));
    record.is_spent = true;
    record.ark_txid = Some(txid.to_string());
    assert!(checkpoint_inputs_were_spent_by(
        &[checkpoint],
        txid,
        std::slice::from_ref(&record)
    ));
}

#[test]
fn pending_journal_preserves_exact_psbts() {
    let signed_ark = test_action_psbt(1, ACTION_RIGHT, 7);
    let txid = signed_ark.compute_txid();
    let action = PendingAction::UnknownMove {
        submission: UnknownSubmission {
            txid,
            signed_ark: signed_ark.clone(),
            checkpoints: vec![test_psbt(2)],
            last_error: "prepared".to_string(),
        },
        direction: ACTION_RIGHT,
        sequence: 7,
    };
    let restored = pending_action_from_journal(pending_action_to_journal(&action)).unwrap();
    let PendingAction::UnknownMove { submission, direction, sequence } = restored else {
        panic!("wrong restored pending action");
    };
    assert_eq!(submission.txid, txid);
    assert_eq!(submission.signed_ark.serialize(), signed_ark.serialize());
    assert_eq!(direction, ACTION_RIGHT);
    assert_eq!(sequence, 7);
}
