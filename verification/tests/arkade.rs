use arkade_city::arkade::{
    absorb_page, decode_pending, decode_submitted, decode_virtual_tx, find_pending_copy, decode_virtual_txs,
    empty_page, following_page, page_from_response, params_from_info, virtual_txs_url, vtxos_url,
    ArkadeRest, GetVtxosResponse, IndexerAsset, IndexerOutpoint, IndexerPage, IndexerVtxo,
    InfoError, InfoResponse, Network, SubmitError, SubmitTxResponse, VirtualTxError, VtxoPage,
};
use arkade_city::psbt::PsbtFault;

fn signer() -> String {
    let address = ark_core::ArkAddress::decode(arkade_city::match_::GAME_ADDRESS).unwrap();
    let key = bitcoin::PublicKey::new(address.server().public_key(bitcoin::key::Parity::Even));
    key.to_string()
}

fn forfeit_address(network: bitcoin::Network) -> String {
    let key: bitcoin::CompressedPublicKey = signer().parse().unwrap();
    bitcoin::Address::p2wpkh(&key, network).to_string()
}

fn info() -> InfoResponse {
    InfoResponse {
        version: Some("v0.9".to_string()),
        signer_pubkey: signer(),
        forfeit_pubkey: None,
        network: "Mutinynet".to_string(),
        dust: "330".to_string(),
        vtxo_min_amount: None,
        unilateral_exit_delay: "2048".to_string(),
        max_op_return_outputs: Some("3".to_string()),
        checkpoint_tapscript: "5120".to_string(),
        forfeit_address: forfeit_address(bitcoin::Network::Signet),
    }
}

#[test]
fn operator_parameters_are_read() {
    let params = params_from_info(&info()).unwrap();
    assert_eq!(params.server_version, "v0.9");
    assert_eq!(params.network, Network::Signet);
    assert_eq!(params.network_name, "mutinynet");
    assert_eq!(params.dust_sats, 330);
    assert_eq!(params.vtxo_min_sats, 1);
    assert_eq!(params.unilateral_exit_delay, 0x40_0004);
    assert_eq!(params.max_op_return_outputs, 3);
    assert_eq!(params.checkpoint_tapscript, vec![0x51, 0x20]);
    assert_eq!(params.forfeit_address, forfeit_address(bitcoin::Network::Signet));
    let address = ark_core::ArkAddress::decode(arkade_city::match_::GAME_ADDRESS).unwrap();
    assert_eq!(params.signer_pk, address.server().serialize());
    assert_eq!(params.forfeit_pk.len(), 33);
}

#[test]
fn missing_parameters_have_defaults() {
    let mut answer = info();
    answer.version = None;
    answer.max_op_return_outputs = Some("many".to_string());
    answer.vtxo_min_amount = Some("17".to_string());
    answer.unilateral_exit_delay = "144".to_string();
    let params = params_from_info(&answer).unwrap();
    assert_eq!(params.server_version, "unknown");
    assert_eq!(params.max_op_return_outputs, 0);
    assert_eq!(params.vtxo_min_sats, 17);
    assert_eq!(params.unilateral_exit_delay, 144);
}

#[test]
fn each_wrong_parameter_is_named() {
    let refused = |change: &dyn Fn(&mut InfoResponse)| {
        let mut answer = info();
        change(&mut answer);
        params_from_info(&answer).unwrap_err()
    };
    assert_eq!(refused(&|i| i.signer_pubkey = "zz".to_string()), InfoError::SignerPubkey);
    assert_eq!(refused(&|i| i.forfeit_pubkey = Some("00".to_string())), InfoError::ForfeitPubkey);
    assert_eq!(refused(&|i| i.network = "moon".to_string()), InfoError::UnsupportedNetwork);
    assert_eq!(
        refused(&|i| i.unilateral_exit_delay = "soon".to_string()),
        InfoError::ExitDelayNumber
    );
    assert_eq!(
        refused(&|i| i.checkpoint_tapscript = "5".to_string()),
        InfoError::CheckpointTapscript
    );
    assert_eq!(
        refused(&|i| i.forfeit_address = "nowhere".to_string()),
        InfoError::ForfeitAddress
    );
    assert_eq!(
        refused(&|i| i.forfeit_address = forfeit_address(bitcoin::Network::Bitcoin)),
        InfoError::ForfeitAddressNetwork
    );
    assert_eq!(refused(&|i| i.dust = "-1".to_string()), InfoError::Dust);
    assert_eq!(
        refused(&|i| i.unilateral_exit_delay = "-5".to_string()),
        InfoError::NegativeExitDelay
    );
    assert_eq!(
        refused(&|i| i.unilateral_exit_delay = "33554432".to_string()),
        InfoError::ExitDelayTooLong
    );
}

fn vtxo(txid: &str, vout: u32) -> IndexerVtxo {
    IndexerVtxo {
        outpoint: Some(IndexerOutpoint { txid: txid.to_string(), vout }),
        script: Some("51".to_string()),
        amount: Some("330".to_string()),
        assets: None,
        is_spent: None,
        is_preconfirmed: Some(true),
        is_swept: None,
        is_unrolled: None,
        expires_at: Some("77".to_string()),
        created_at: Some("x".to_string()),
        ark_txid: None,
        spent_by: None,
    }
}

fn page_answer(vtxos: Vec<IndexerVtxo>, current: i32, next: i32, total: i32) -> GetVtxosResponse {
    GetVtxosResponse {
        vtxos: Some(vtxos),
        page: Some(IndexerPage { current: Some(current), next: Some(next), total: Some(total) }),
    }
}

#[test]
fn records_are_read_from_pages() {
    let id = "01".repeat(32);
    let mut with_assets = vtxo(&id, 3);
    with_assets.assets = Some(vec![
        IndexerAsset { asset_id: "ab".repeat(34), amount: Some("5".to_string()) },
        IndexerAsset { asset_id: "cd".repeat(34), amount: None },
        IndexerAsset { asset_id: "short".to_string(), amount: Some("5".to_string()) },
    ]);
    let mut without_script = vtxo(&id, 4);
    without_script.script = None;
    let page =
        page_from_response(&page_answer(vec![with_assets, without_script], 1, 2, 2), 1).unwrap();
    assert_eq!(page.vtxos.len(), 1);
    let record = &page.vtxos[0];
    assert_eq!(record.outpoint.to_string(), format!("{id}:3"));
    assert_eq!(record.amount_sats, 330);
    assert_eq!(record.assets, vec![("ab".repeat(34), 5), ("cd".repeat(34), 0)]);
    assert_eq!(record.expires_at, Some(77));
    assert_eq!(record.created_at, None);
    assert!(record.is_preconfirmed && !record.is_spent);
    assert_eq!((page.current, page.next, page.total), (1, 2, 2));
    assert!(page_from_response(&page_answer(vec![vtxo("bad", 0)], 1, 0, 1), 1).is_none());
}

#[test]
fn listings_end_at_the_last_page_and_lead_forward() {
    let page = |current, next, total| VtxoPage { vtxos: Vec::new(), current, next, total };
    assert_eq!(following_page(&page(1, 2, 3)), Some(2));
    assert_eq!(following_page(&page(3, 4, 3)), None);
    assert_eq!(following_page(&page(2, 2, 3)), None);
    assert_eq!(following_page(&page(-3, 0, 3)), None);
    assert_eq!(following_page(&empty_page(1)), None);
    let answer = GetVtxosResponse { vtxos: None, page: None };
    let last = page_from_response(&answer, 7).unwrap();
    assert_eq!((last.current, last.next, last.total), (7, 0, 7));
}

#[test]
fn listings_do_not_repeat_outputs() {
    let id = "01".repeat(32);
    let first = page_from_response(&page_answer(vec![vtxo(&id, 0), vtxo(&id, 1)], 1, 2, 2), 1);
    let second = page_from_response(&page_answer(vec![vtxo(&id, 1), vtxo(&id, 2)], 2, 0, 2), 2);
    let mut records = Vec::new();
    assert_eq!(absorb_page(&mut records, &first.unwrap()), Some(2));
    assert_eq!(absorb_page(&mut records, &second.unwrap()), None);
    let vouts: Vec<u32> = records.iter().map(|record| record.outpoint.vout).collect();
    assert_eq!(vouts, vec![0, 1, 2]);
}

#[test]
fn requests_are_spelled_out() {
    let rest = ArkadeRest::new("https://operator.example//");
    assert_eq!(rest.base(), "https://operator.example");
    assert_eq!(
        vtxos_url(rest.base(), &["51".to_string(), "52".to_string()], "spendableOnly", 500, 2),
        "https://operator.example/v1/indexer/vtxos?scripts=51&scripts=52&page.size=500&page.index=2&spendableOnly=true"
    );
    assert_eq!(
        vtxos_url("b", &["51".to_string()], "", 500, 1),
        "b/v1/indexer/vtxos?scripts=51&page.size=500&page.index=1"
    );
    assert_eq!(
        virtual_txs_url("b", &["x".to_string(), "y".to_string()]),
        "b/v1/indexer/virtualTx/x,y"
    );
}

fn outside_tx(signed: bool) -> bitcoin::Transaction {
    bitcoin::Transaction {
        version: bitcoin::transaction::Version(3),
        lock_time: bitcoin::absolute::LockTime::ZERO,
        input: vec![bitcoin::TxIn {
            script_sig: if signed {
                bitcoin::ScriptBuf::from_bytes(vec![1])
            } else {
                bitcoin::ScriptBuf::new()
            },
            ..Default::default()
        }],
        output: vec![bitcoin::TxOut {
            value: bitcoin::Amount::from_sat(9),
            script_pubkey: bitcoin::ScriptBuf::from_bytes(vec![0x51]),
        }],
    }
}

#[test]
fn virtual_transactions_come_as_psbts_or_raw() {
    let tx = outside_tx(false);
    let outside = bitcoin::Psbt::from_unsigned_tx(tx.clone()).unwrap();
    let raw = bitcoin::consensus::encode::serialize_hex(&tx);
    let text = base64::Engine::encode(
        &base64::engine::general_purpose::STANDARD,
        outside.serialize(),
    );
    for entry in [raw.as_str(), text.as_str()] {
        let psbt = decode_virtual_tx(entry).unwrap();
        assert_eq!(psbt.serialize(), outside.serialize());
        assert_eq!(psbt.compute_txid().to_string(), tx.compute_txid().to_string());
        assert_eq!(psbt.to_base64(), text);
        assert_eq!(psbt.unsigned_tx().output[0].value, 9);
    }
    assert_eq!(decode_virtual_txs(&[raw.clone(), text]).unwrap().len(), 2);
    assert_eq!(decode_virtual_tx("!").err().unwrap(), VirtualTxError::NeitherPsbtNorHex);
    assert_eq!(decode_virtual_tx("00ff00ff0").err().unwrap(), VirtualTxError::NeitherPsbtNorHex);
    assert_eq!(decode_virtual_tx("00ff00").err().unwrap(), VirtualTxError::NotATransaction);
    let signed = bitcoin::consensus::encode::serialize_hex(&outside_tx(true));
    assert_eq!(decode_virtual_tx(&signed).err().unwrap(), VirtualTxError::NotUnsigned);
    assert!(decode_virtual_txs(&[raw, signed]).is_err());
}

#[test]
fn cosigned_transactions_are_read() {
    let outside = bitcoin::Psbt::from_unsigned_tx(outside_tx(false)).unwrap();
    let text = base64::Engine::encode(
        &base64::engine::general_purpose::STANDARD,
        outside.serialize(),
    );
    let answer = |txid: Option<&str>, ark: Option<&str>, checkpoint: &str| SubmitTxResponse {
        ark_txid: txid.map(str::to_string),
        final_ark_tx: ark.map(str::to_string),
        signed_checkpoint_txs: Some(vec![checkpoint.to_string()]),
    };
    let own = outside.unsigned_tx.compute_txid().to_string();
    let other = "07".repeat(32);
    let named = decode_submitted(&answer(Some(&other), Some(&text), &text)).unwrap();
    assert_eq!(named.txid.to_string(), other);
    assert_eq!(named.checkpoints.len(), 1);
    let unnamed = decode_submitted(&answer(Some("?"), Some(&text), &text)).unwrap();
    assert_eq!(unnamed.txid.to_string(), own);
    assert_eq!(
        decode_submitted(&answer(None, None, &text)).err().unwrap(),
        SubmitError::MissingArkTx
    );
    assert_eq!(
        decode_submitted(&answer(None, Some("AAAA"), &text)).err().unwrap(),
        SubmitError::ArkTx(PsbtFault::Psbt)
    );
    assert_eq!(
        decode_submitted(&answer(None, Some(&text), "?")).err().unwrap(),
        SubmitError::Checkpoint(PsbtFault::Base64)
    );
    let pending = decode_pending(&[
        answer(Some(&other), Some(&text), &text),
        answer(None, Some(&text), &text),
        answer(None, Some(&text), &text),
    ])
    .unwrap();
    assert_eq!(pending.len(), 3);
    assert_eq!(find_pending_copy(&pending, unnamed.txid), Some(1));
    assert_eq!(find_pending_copy(&pending[..1], unnamed.txid), None);
    assert!(decode_pending(&[answer(None, None, &text)]).is_err());
}

#[test]
fn exit_delays_are_rounded_up_and_bounded() {
    let delay = |text: &str| {
        let mut answer = info();
        answer.unilateral_exit_delay = text.to_string();
        params_from_info(&answer).map(|params| params.unilateral_exit_delay)
    };
    let seconds = |n: u32| Ok(bitcoin::Sequence::from_seconds_ceil(n).unwrap().0);
    assert_eq!(delay("0"), Ok(0));
    assert_eq!(delay("511"), Ok(511));
    assert_eq!(delay("512"), Ok(0x40_0001));
    assert_eq!(delay("513"), Ok(0x40_0002));
    assert_eq!(delay("513"), seconds(513));
    assert_eq!(delay("33553920"), Ok(0x40_ffff));
    assert_eq!(delay("33553920"), seconds(33_553_920));
    for long in ["33553921", "4294967296", "4294967808", "9223372036854775807"] {
        assert_eq!(delay(long), Err(InfoError::ExitDelayTooLong));
    }
}
