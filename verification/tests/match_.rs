use ark_core::asset::packet::{AssetGroup, AssetInput, AssetOutput, Packet};
use arkade_city::arkade::{ArkadeRest, Network, ServerParams, VtxoPage, VtxoRecord};
use arkade_city::chain::{AssetId, OutPoint, Txid};
use arkade_city::gamelog::{MoveReceipt, DIRECTIONS, GAME_ID, MOVE_SUPPLY, PLAYER_ASSET_OUTPUT_INDEX};
use arkade_city::match_::discovery::pack_assets;
use arkade_city::match_::journal::check_journal_size;
use arkade_city::match_::players::{carrier_ids, script_batch, MoveBatch, MoveSync};
use arkade_city::match_::snapshot::status_of_output;
use arkade_city::match_::sync::next_batch;
use arkade_city::match_::tick::{
    registry_is_next, Beginning, PlayStep, WalletStep, WalletSynced, Wishes,
};
use arkade_city::match_::{
    extract_spent_outpoint, safe_wallet_input, total_amount, GameApp, Phase, ResumeAction,
    RunTxStatus, StartError, GAME_ADDRESS, MUTINYNET_SERVER,
};
use arkade_city::pending::{
    JournalError, JournalStage, JournalTransaction, PendingFinalize, PendingJournal,
    PendingJournalAction, UnknownSubmission,
};
use arkade_city::psbt::{Psbt, PsbtFault};
use arkade_city::table::Table;

const NOW: u64 = 1_000_000_000;

const QUIET: Wishes = Wishes { enter_game: false, mint_pack: false, sweep: false };

fn owner() -> [u8; 32] {
    let secp = bitcoin::key::Secp256k1::new();
    let secret = bitcoin::secp256k1::SecretKey::from_slice(&[7; 32]).unwrap();
    secret.x_only_public_key(&secp).0.serialize()
}

fn params() -> ServerParams {
    let signer_pk = ark_core::ArkAddress::decode(GAME_ADDRESS).unwrap().server().serialize();
    ServerParams {
        server_version: "v1".to_string(),
        signer_pk,
        forfeit_pk: Vec::new(),
        network: Network::Signet,
        network_name: "mutinynet".to_string(),
        dust_sats: 330,
        vtxo_min_sats: 330,
        unilateral_exit_delay: 0x40_0004,
        max_op_return_outputs: 3,
        checkpoint_tapscript: Vec::new(),
        forfeit_address: String::new(),
    }
}

fn game() -> GameApp {
    GameApp::new(&owner(), &ArkadeRest::new(MUTINYNET_SERVER), params()).unwrap()
}

fn game_script() -> Vec<u8> {
    ark_core::ArkAddress::decode(GAME_ADDRESS).unwrap().to_p2tr_script_pubkey().into_bytes()
}

fn own_script(app: &GameApp) -> Vec<u8> {
    ark_core::ArkAddress::decode(app.player_address()).unwrap().to_p2tr_script_pubkey().into_bytes()
}

fn id(byte: u8) -> Txid {
    Txid::from_byte_array([byte; 32])
}

fn record(txid: Txid, vout: u32, amount_sats: u64) -> VtxoRecord {
    VtxoRecord {
        outpoint: OutPoint { txid, vout },
        script: String::new(),
        amount_sats,
        assets: Vec::new(),
        is_spent: false,
        is_preconfirmed: true,
        is_swept: false,
        is_unrolled: false,
        expires_at: Some(i64::MAX),
        created_at: Some(5),
        ark_txid: None,
        spent_by: None,
    }
}

fn output(value: u64, script: Vec<u8>) -> bitcoin::TxOut {
    bitcoin::TxOut {
        value: bitcoin::Amount::from_sat(value),
        script_pubkey: bitcoin::ScriptBuf::from_bytes(script),
    }
}

fn data_output(payload: &[u8]) -> bitcoin::TxOut {
    let data = bitcoin::script::PushBytesBuf::try_from(payload.to_vec()).unwrap();
    bitcoin::TxOut {
        value: bitcoin::Amount::ZERO,
        script_pubkey: bitcoin::script::Builder::new()
            .push_opcode(bitcoin::opcodes::all::OP_RETURN)
            .push_slice(&data)
            .into_script(),
    }
}

fn psbt(inputs: &[OutPoint], outputs: Vec<bitcoin::TxOut>) -> Psbt {
    let outside = bitcoin::Psbt::from_unsigned_tx(bitcoin::Transaction {
        version: bitcoin::transaction::Version(3),
        lock_time: bitcoin::absolute::LockTime::ZERO,
        input: inputs
            .iter()
            .map(|outpoint| bitcoin::TxIn {
                previous_output: bitcoin::OutPoint {
                    txid: bitcoin::hashes::Hash::from_byte_array(outpoint.txid.to_byte_array()),
                    vout: outpoint.vout,
                },
                ..Default::default()
            })
            .collect(),
        output: outputs,
    })
    .unwrap();
    Psbt::deserialize(&outside.serialize()).unwrap()
}

fn plain_psbt(byte: u8) -> Psbt {
    psbt(&[OutPoint { txid: id(byte), vout: 0 }], vec![output(330, vec![])])
}

/// A registration of the player with a script.
fn registration(player_script: Vec<u8>) -> Psbt {
    let groups = DIRECTIONS
        .iter()
        .map(|direction| AssetGroup {
            asset_id: None,
            control_asset: None,
            metadata: Some(vec![
                ("game".to_string(), GAME_ID.to_string()),
                ("move".to_string(), direction.to_string()),
            ]),
            inputs: Vec::new(),
            outputs: vec![AssetOutput {
                output_index: PLAYER_ASSET_OUTPUT_INDEX,
                amount: MOVE_SUPPLY,
            }],
        })
        .collect();
    psbt(
        &[OutPoint { txid: id(1), vout: 0 }],
        vec![
            output(330, game_script()),
            output(330, player_script),
            Packet { groups }.to_txout(),
        ],
    )
}

/// A burn of one unit by a player that leaves one carrier.
fn burn(carrier: OutPoint, player: Txid, group: u16, sequence: u32, script: Vec<u8>) -> Psbt {
    let packet = Packet {
        groups: vec![AssetGroup {
            asset_id: Some(ark_core::asset::AssetId {
                txid: bitcoin::hashes::Hash::from_byte_array(player.to_byte_array()),
                group_index: group,
            }),
            control_asset: None,
            metadata: None,
            inputs: vec![AssetInput { input_index: 0, amount: 50 }],
            outputs: vec![AssetOutput { output_index: 0, amount: 49 }],
        }],
    };
    psbt(
        &[carrier],
        vec![
            output(330, script),
            packet.to_txout(),
            data_output(&MoveReceipt { sequence }.encode()),
        ],
    )
}

fn submission(signed_ark: Psbt) -> UnknownSubmission {
    UnknownSubmission {
        txid: signed_ark.compute_txid(),
        signed_ark,
        checkpoints: vec![plain_psbt(2)],
        last_error: String::new(),
    }
}

fn table(list: &[&Psbt]) -> Table<Txid, Psbt> {
    let mut table = Table::new();
    for psbt in list {
        table.insert(psbt.compute_txid(), (*psbt).clone());
    }
    table
}

/// A game whose player has issued a pack that is pending.
fn issued() -> (GameApp, Psbt) {
    let mut app = game();
    let signed = registration(own_script(&app));
    let txid = signed.compute_txid();
    let spendable = [record(id(1), 0, 660)];
    let inputs = app.begin_issuance(&spendable, false, NOW).unwrap();
    assert_eq!(inputs.len(), 1);
    assert_eq!(app.phase(), Phase::Issuing);
    app.issuance_prepared(Ok((submission(signed.clone()), pack_assets(txid))), false);
    (app, signed)
}

#[test]
fn games_start_at_the_pinned_operator_only() {
    let rest = ArkadeRest::new(MUTINYNET_SERVER);
    let app = GameApp::new(&owner(), &rest, params()).unwrap();
    assert_eq!(app.game_address(), GAME_ADDRESS);
    assert_eq!(app.phase(), Phase::FundWallet);
    assert_eq!(app.required_funding(), 660);
    let snapshot = app.snapshot("v", NOW);
    assert_eq!(
        snapshot.log,
        vec![format!(
            "connected to mutinynet at {MUTINYNET_SERVER}; watching registry {GAME_ADDRESS}"
        )]
    );

    let start = |rest: &ArkadeRest, params: ServerParams| {
        GameApp::new(&owner(), rest, params).err().unwrap()
    };
    let mut few = params();
    few.max_op_return_outputs = 1;
    assert_eq!(start(&rest, few), StartError::OperatorLimits);
    let elsewhere = ArkadeRest::new("https://arkade.computer");
    assert_eq!(start(&elsewhere, params()), StartError::UnsupportedServer);
    let mut slow = params();
    slow.unilateral_exit_delay = 144;
    assert_eq!(start(&rest, slow), StartError::RegistryMismatch);
    let mut broken = params();
    broken.signer_pk = [0; 32];
    assert_eq!(start(&rest, broken), StartError::Registry);
    let nobody = GameApp::new(&[0; 32], &rest, params()).err().unwrap();
    assert_eq!(nobody, StartError::PlayerContract);
}

#[test]
fn registration_inputs_are_exact_or_leave_change() {
    let app = game();
    let pick = |amounts: &[u64]| {
        let records: Vec<VtxoRecord> =
            amounts.iter().enumerate().map(|(i, sats)| record(id(i as u8), 0, *sats)).collect();
        app.registration_inputs(&records, NOW)
            .map(|inputs| inputs.iter().map(|input| input.amount_sats).collect::<Vec<u64>>())
    };
    assert_eq!(pick(&[5_000, 660, 990]), Some(vec![660]));
    assert_eq!(pick(&[5_000, 700, 990]), Some(vec![990]));
    assert_eq!(pick(&[100, 400, 300, 700]), Some(vec![700, 400]));
    assert_eq!(pick(&[700]), None);
    assert_eq!(pick(&[]), None);
    let mut expiring = record(id(1), 0, 660);
    expiring.expires_at = Some((NOW / 1_000) as i64 + 3_600);
    assert!(!safe_wallet_input(&expiring, NOW));
    assert!(app.registration_inputs(&[expiring], NOW).is_none());
    let mut carrying = record(id(1), 0, 660);
    carrying.assets = vec![("x".to_string(), 1)];
    assert!(app.registration_inputs(&[carrying], NOW).is_none());
}

#[test]
fn spent_outputs_are_not_used_again() {
    let mut app = game();
    let spent = record(id(9), 2, 660);
    let error = format!("submit failed: {} already spent", spent.outpoint.to_string());
    assert_eq!(extract_spent_outpoint(&error), Some(spent.outpoint.to_string()));
    app.begin_issuance(&[spent.clone()], false, NOW).unwrap();
    app.issuance_prepared(Err(error.clone()), false);
    assert!(app.registration_inputs(&[spent], NOW).is_none());
    let snapshot = app.snapshot("v", NOW);
    assert_eq!(snapshot.last_error, Some(format!("issuance: {error}")));
    assert!(!snapshot.sending);
}

#[test]
fn spent_outpoints_are_found_in_error_bodies() {
    let txid = "0f".repeat(32);
    let found = |body: &str| extract_spent_outpoint(body);
    assert_eq!(found(&format!("VTXO {txid}:0 already spent")), Some(format!("{txid}:0")));
    assert_eq!(found(&format!("{txid}:7 is already spent")), Some(format!("{txid}:7")));
    assert_eq!(found(&format!("{txid}:7 has been already spent")), None);
    assert_eq!(found(&format!("{txid}:x already spent")), None);
    assert_eq!(found("already spent"), None);
    assert_eq!(found("nothing"), None);
}

#[test]
fn prepared_transactions_are_submitted_by_the_next_tick() {
    let (mut app, signed) = issued();
    let txid = signed.compute_txid();
    assert_eq!(app.player_id(), Some(txid));
    let snapshot = app.snapshot("v", NOW);
    assert_eq!(snapshot.move_balances, [50, 50, 50, 50, 50, 5]);
    assert_eq!(snapshot.wallet_action, "recovering-game-tx");
    assert_eq!(snapshot.pending_txid, Some(txid.to_string()));

    assert_eq!(app.begin_step(&[0], QUIET, NOW), Beginning::Resume);
    let ResumeAction::Submit(resumed) = app.resume_pending() else {
        panic!("not submitted");
    };
    assert_eq!(resumed.signed_ark.serialize(), signed.serialize());
    assert!(app.snapshot("v", NOW).sending);

    app.submission_done(Ok(RunTxStatus::Pending(PendingFinalize {
        txid,
        signed_ark: signed.clone(),
        checkpoints: vec![plain_psbt(2)],
        last_error: String::new(),
    })));
    assert_eq!(app.snapshot("v", NOW).wallet_action, "finalizing-game-tx");
    assert!(matches!(app.resume_pending(), ResumeAction::Finalize(_)));
    app.finalization_done(Err("later".to_string()));
    let failed = app.snapshot("v", NOW);
    assert_eq!(failed.last_error, Some("pending finalization: later".to_string()));
    assert!(failed.pending);
    assert!(matches!(app.resume_pending(), ResumeAction::Finalize(_)));
    app.finalization_done(Ok(()));
    let done = app.snapshot("v", NOW);
    assert!(!done.pending);
    assert_eq!(done.wallet_action, "idle");
    assert!(matches!(app.resume_pending(), ResumeAction::Nothing));
}

#[test]
fn failed_submissions_are_recovered() {
    let (mut app, signed) = issued();
    assert!(matches!(app.resume_pending(), ResumeAction::Submit(_)));
    app.submission_done(Err("timeout".to_string()));
    assert!(!app.has_fresh_prepared_action());
    let ResumeAction::Retry(again) = app.resume_pending() else {
        panic!("not retried");
    };
    assert_eq!(again.txid, signed.compute_txid());
    app.submission_done(Ok(RunTxStatus::Finalized(signed.compute_txid())));
    assert!(!app.snapshot("v", NOW).pending);
}

fn exported() -> (GameApp, PendingJournal) {
    let (app, _) = issued();
    let journal = app.export_pending_journal().unwrap();
    (app, journal)
}

#[test]
fn journals_bring_back_the_same_transaction() {
    let (first, journal) = exported();
    assert!(game().export_pending_journal().is_none());
    let mut app = game();
    app.restore_pending_journal(journal).unwrap();
    assert_eq!(app.player_id(), first.player_id());
    assert_eq!(app.phase(), Phase::Issuing);
    let before = first.export_pending_journal().unwrap();
    let after = app.export_pending_journal().unwrap();
    assert_eq!(format!("{before:?}"), format!("{after:?}"));
    assert!(!app.has_fresh_prepared_action());
    assert!(matches!(app.resume_pending(), ResumeAction::Retry(_)));
}

#[test]
fn each_wrong_journal_is_refused_and_changes_nothing() {
    let refused = |change: &dyn Fn(&mut PendingJournal)| {
        let (_, mut journal) = exported();
        change(&mut journal);
        let mut app = game();
        let error = app.restore_pending_journal(journal).unwrap_err();
        assert!(app.export_pending_journal().is_none());
        assert_eq!(app.snapshot("v", NOW).log.len(), 1);
        error
    };
    fn tx(journal: &mut PendingJournal) -> &mut JournalTransaction {
        match &mut journal.action {
            PendingJournalAction::Issuance { transaction, .. } => transaction,
            PendingJournalAction::Move { transaction, .. } => transaction,
            PendingJournalAction::Sweep { transaction } => transaction,
        }
    }
    fn as_move(journal: &mut PendingJournal, signed: Psbt, direction: u8, sequence: u32) {
        journal.action = PendingJournalAction::Move {
            transaction: JournalTransaction {
                stage: JournalStage::Prepared,
                txid: signed.compute_txid().to_string(),
                signed_ark: signed.to_base64(),
                checkpoints: vec![plain_psbt(2).to_base64()],
                last_error: String::new(),
            },
            direction,
            sequence,
        };
    }
    assert_eq!(check_journal_size(2_000_001), Err(JournalError::TooLarge));
    assert_eq!(check_journal_size(2_000_000), Ok(()));
    assert_eq!(refused(&|j| j.version = 2), JournalError::UnsupportedVersion(2));
    assert_eq!(refused(&|j| j.server.push('x')), JournalError::DifferentServer);
    assert_eq!(refused(&|j| j.address.push('x')), JournalError::DifferentWallet);
    assert_eq!(refused(&|j| j.signer.push('x')), JournalError::DifferentSigner);
    assert_eq!(refused(&|j| tx(j).txid.push('x')), JournalError::Txid);
    assert_eq!(
        refused(&|j| tx(j).signed_ark = "?".to_string()),
        JournalError::ArkTx(PsbtFault::Base64)
    );
    assert_eq!(refused(&|j| tx(j).txid = id(4).to_string()), JournalError::ArkTxid);
    assert_eq!(refused(&|j| tx(j).checkpoints.clear()), JournalError::CheckpointCount);
    assert_eq!(
        refused(&|j| tx(j).checkpoints[0] = "AAAA".to_string()),
        JournalError::Checkpoint(PsbtFault::Psbt)
    );
    assert_eq!(
        refused(&|j| tx(j).checkpoints.push(plain_psbt(3).to_base64())),
        JournalError::InconsistentCheckpoints
    );
    let carrier = OutPoint { txid: id(8), vout: 1 };
    assert_eq!(
        refused(&|j| as_move(j, burn(carrier, id(8), 1, 4, vec![]), 6, 4)),
        JournalError::ActionCode
    );
    assert_eq!(refused(&|j| as_move(j, plain_psbt(5), 1, 4)), JournalError::NotABurn);
    assert_eq!(
        refused(&|j| as_move(j, burn(carrier, id(8), 1, 4, vec![]), 2, 4)),
        JournalError::BurnMismatch
    );
    let with_ids = |j: &mut PendingJournal, change: &dyn Fn(&mut [String; 6])| {
        if let PendingJournalAction::Issuance { asset_ids, .. } = &mut j.action {
            change(asset_ids);
        }
    };
    assert_eq!(
        refused(&|j| with_ids(j, &|ids| ids[5] = "no id".to_string())),
        JournalError::AssetId
    );
    assert_eq!(
        refused(&|j| with_ids(j, &|ids| ids.swap(0, 1))),
        JournalError::AssetIdMismatch
    );
    let strangers = |j: &mut PendingJournal| {
        let signed = registration([&[0x51, 0x20][..], &[9; 32][..]].concat());
        let ids = pack_assets(signed.compute_txid()).map(|asset| asset.to_string());
        tx(j).txid = signed.compute_txid().to_string();
        tx(j).signed_ark = signed.to_base64();
        with_ids(j, &|all| *all = ids.clone());
    };
    assert_eq!(refused(&strangers), JournalError::NotARegistration);
}

/// A game in which the player can act: registered, scanned, with units and a carrier.
fn playing() -> (GameApp, Vec<VtxoRecord>) {
    let (mut app, signed) = issued();
    let txid = signed.compute_txid();
    assert!(matches!(app.resume_pending(), ResumeAction::Submit(_)));
    app.submission_done(Ok(RunTxStatus::Finalized(txid)));
    let mut carrier = record(txid, 1, 330);
    carrier.script = app.player_script().to_string();
    carrier.assets = pack_assets(txid).iter().map(|asset| (asset.to_string(), 3)).collect();
    let spendable = vec![carrier];
    let scripts = app.player_scripts();
    assert_eq!(scripts, vec![app.player_script().to_string()]);
    app.note_scanned(&scripts);
    let synced = WalletSynced { game_ready: Some(true), diagnostics_ready: true };
    assert_eq!(app.wallet_known(&spendable, QUIET, synced, NOW), WalletStep::Game(true));
    assert_eq!(app.play(QUIET, true, true), PlayStep::Move);
    assert_eq!(app.phase(), Phase::Playing);
    assert!(app.begin_move(&spendable, NOW).is_none());
    (app, spendable)
}

#[test]
fn one_action_is_queued_sent_and_counted() {
    let (mut app, spendable) = playing();
    assert!(app.can_act());
    app.queue_inputs(&[9, 3, 1]);
    assert!(!app.can_act());
    assert_eq!(app.snapshot("v", NOW).projected_action, Some(3));
    app.queue_inputs(&[1]);
    let plan = app.begin_move(&spendable, NOW).unwrap();
    assert_eq!((plan.direction, plan.sequence), (3, 0));
    assert!(plan.asset_id == pack_assets(app.player_id().unwrap())[3]);
    let player = app.player_id().unwrap();
    let carrier = OutPoint { txid: player, vout: 1 };
    let signed = burn(carrier, player, 3, 0, own_script(&app));
    app.move_prepared(3, Ok(submission(signed.clone())));
    assert!(matches!(app.resume_pending(), ResumeAction::Submit(_)));
    app.submission_done(Ok(RunTxStatus::Finalized(signed.compute_txid())));
    let snapshot = app.snapshot("v", NOW);
    assert_eq!(snapshot.move_balances, [3, 3, 3, 2, 3, 3]);
    assert_eq!(snapshot.events, 1);
    assert_eq!(snapshot.projected_action, Some(3));
    assert!(!snapshot.can_act);
    let short = &signed.compute_txid().to_string()[..8];
    assert_eq!(snapshot.log.last().unwrap(), &format!("burned A #1 in {short}"));
}

#[test]
fn refused_actions_wait_again() {
    let (mut app, spendable) = playing();
    app.queue_inputs(&[2]);
    let plan = app.begin_move(&spendable, NOW).unwrap();
    app.move_prepared(plan.direction, Err("no fees".to_string()));
    let snapshot = app.snapshot("v", NOW);
    assert_eq!(snapshot.queued, 1);
    assert_eq!(snapshot.last_error, Some("move: no fees".to_string()));
    assert!(app.begin_move(&[], NOW).is_none());
    assert_eq!(
        app.snapshot("v", NOW).log.last().unwrap(),
        "waiting for the action asset carrier"
    );
}

#[test]
fn exhausted_packs_end_play() {
    let (mut app, _) = playing();
    let synced = WalletSynced { game_ready: Some(true), diagnostics_ready: false };
    app.wallet_known(&[], QUIET, synced, NOW);
    assert_eq!(app.play(QUIET, true, false), PlayStep::Stop);
    assert_eq!(app.phase(), Phase::OutOfMoves);
    let mint = Wishes { mint_pack: true, ..QUIET };
    assert_eq!(app.play(mint, true, false), PlayStep::Stop);
    assert_eq!(
        app.snapshot("v", NOW).log.last().unwrap(),
        "mint requires 660 sats in BTC-only inputs"
    );
    app.wallet_known(&[record(id(1), 0, 660)], QUIET, synced, NOW);
    assert_eq!(app.play(mint, true, false), PlayStep::MintPack);
}

#[test]
fn sweeps_are_checked_before_they_are_built() {
    let (mut app, spendable) = playing();
    let refuse = |app: &mut GameApp, spendable: &[VtxoRecord], destination: &str| {
        assert!(app.begin_sweep(spendable, destination, NOW).is_none());
        app.snapshot("v", NOW).last_error.unwrap()
    };
    assert_eq!(
        refuse(&mut app, &spendable, "ark1xyz"),
        "wallet sweep: destination must be a tark1 address for mutinynet"
    );
    assert!(refuse(&mut app, &spendable, "tark1xyz")
        .starts_with("wallet sweep: invalid destination Ark address: "));
    let mut elsewhere = params();
    elsewhere.signer_pk = owner();
    let other = arkade_city::address::my_address(&owner(), &elsewhere).unwrap();
    assert_eq!(
        refuse(&mut app, &spendable, &other),
        "wallet sweep: destination belongs to a different Arkade operator"
    );
    let own = app.player_address().to_string();
    assert_eq!(
        refuse(&mut app, &spendable, &own),
        "wallet sweep: destination must differ from this wallet; sweeping to self would merge the game carrier"
    );
    assert_eq!(
        refuse(&mut app, &[], GAME_ADDRESS),
        "wallet sweep: no safely spendable VTXOs to sweep"
    );
    let many: Vec<VtxoRecord> = (0..21).map(|i| record(id(i), 0, 1)).collect();
    assert_eq!(
        refuse(&mut app, &many, GAME_ADDRESS),
        "wallet sweep: wallet has 21 spendable VTXOs; sweep at most 20 after consolidating"
    );
    let plan = app.begin_sweep(&many[..20], &format!(" {GAME_ADDRESS}\n"), NOW).unwrap();
    assert_eq!(plan.inputs.len(), 20);
    assert_eq!(plan.recipient, GAME_ADDRESS);
    assert_eq!(app.wallet_action(), "submitting");
    app.sweep_prepared(Ok(submission(plain_psbt(6))));
    assert_eq!(app.wallet_action(), "recovering-sweep");
    assert!(matches!(app.resume_pending(), ResumeAction::Submit(_)));
    app.submission_done(Err("timeout".to_string()));

    let mut swept = record(id(2), 0, 5);
    swept.is_spent = true;
    swept.ark_txid = Some(plain_psbt(6).compute_txid().to_string());
    app.wallet_synced(None, &Ok(Vec::new()), Some(Ok(vec![swept])), NOW).unwrap();
    assert!(matches!(app.resume_pending(), ResumeAction::Nothing));
    let done = app.snapshot("v", NOW);
    assert!(!done.pending);
    assert!(done.log.last().unwrap().ends_with(" appeared in indexer"));
}

fn page(vtxos: Vec<VtxoRecord>, current: i32, next: i32, total: i32) -> VtxoPage {
    VtxoPage { vtxos, current, next, total }
}

fn stranger_script() -> Vec<u8> {
    [&[0x51, 0x20][..], &[9; 32][..]].concat()
}

fn hex(bytes: &[u8]) -> String {
    arkade_city::script::script_hex(bytes)
}

#[test]
fn registry_lists_players_and_forgets_nothing_unresolved() {
    let mut app = game();
    let signed = registration(stranger_script());
    let player = signed.compute_txid();
    let bogus = plain_psbt(4);
    let marker = record(player, 0, 330);
    let other = record(bogus.compute_txid(), 0, 330);
    let missing = record(id(77), 0, 330);
    let mut candidates = app.begin_registry_scan();
    assert!(candidates.is_empty());
    let first = page(vec![marker.clone(), other.clone()], 1, 2, 2);
    let second = page(vec![other.clone(), missing.clone()], 2, 3, 2);
    assert_eq!(app.absorb_registry_page(&mut candidates, &first, false), Some(2));
    assert_eq!(app.absorb_registry_page(&mut candidates, &second, false), None);
    assert_eq!(candidates.len(), 3);

    let txs = table(&[&signed, &bogus]);
    assert_eq!(app.read_registry(&candidates, &txs), 1);
    app.registry_synced(NOW);
    assert_eq!(app.player_scripts(), vec![hex(&stranger_script())]);
    let waiting = app.begin_registry_scan();
    assert_eq!(waiting.len(), 1);
    assert!(waiting[0].outpoint == missing.outpoint);
    let mut again = app.begin_registry_scan();
    assert_eq!(app.absorb_registry_page(&mut again, &first, false), None);
    assert_eq!(app.absorb_registry_page(&mut again, &first, true), Some(2));
    assert_eq!(again.len(), 1);
    assert_eq!(app.read_registry(&[marker], &txs), 0);
}

#[test]
fn markers_with_assets_do_not_register() {
    let mut app = game();
    let signed = registration(stranger_script());
    let mut marker = record(signed.compute_txid(), 0, 330);
    marker.assets = vec![("x".to_string(), 1)];
    assert_eq!(app.read_registry(&[marker], &table(&[&signed])), 0);
    assert!(app.player_scripts().is_empty());
}

#[test]
fn exhausted_registrations_are_recovered() {
    let mut app = game();
    let signed = registration(own_script(&app));
    let marker = record(signed.compute_txid(), 0, 330);
    assert_eq!(app.read_registry(&[marker], &table(&[&signed])), 1);
    assert_eq!(app.player_id(), Some(signed.compute_txid()));
    let short = &signed.compute_txid().to_string()[..8];
    assert_eq!(
        app.snapshot("v", NOW).log.last().unwrap(),
        &format!("recovered exhausted arena registration {short}")
    );
}

/// A stranger's first action, with its carrier in the registration.
fn stranger_move() -> (Psbt, Psbt, Psbt, VtxoRecord) {
    let signed = registration(stranger_script());
    let player = signed.compute_txid();
    let checkpoint = psbt(&[OutPoint { txid: player, vout: 1 }], vec![output(330, vec![])]);
    let carrier = OutPoint { txid: checkpoint.compute_txid(), vout: 0 };
    let action = burn(carrier, player, 1, 0, stranger_script());
    let mut found = record(action.compute_txid(), 0, 330);
    found.script = hex(&stranger_script());
    (signed, checkpoint, action, found)
}

#[test]
fn burns_of_players_become_events_once() {
    let (signed, checkpoint, action, found) = stranger_move();
    let mut app = game();
    let txs = table(&[&action]);
    assert!(carrier_ids(&txs) == vec![checkpoint.compute_txid()]);
    let batch = MoveBatch {
        candidates: vec![found.clone()],
        txs,
        carriers: table(&[&checkpoint]),
    };
    app.note_player_candidates(&batch.candidates);
    let mut sync = MoveSync::new(&batch.candidates);
    assert_eq!(app.continue_move_sync(&mut sync, &batch), Some(signed.compute_txid()));
    app.move_sync_fetched(&mut sync, &batch, &Ok(vec![signed.clone()]));
    assert_eq!(app.continue_move_sync(&mut sync, &batch), None);
    assert_eq!(sync.accepted(), 1);
    assert!(app.begin_player_scan().is_empty());

    let snapshot = app.snapshot("v", NOW);
    assert_eq!(snapshot.events, 1);
    assert_eq!(snapshot.players.len(), 1);
    assert_eq!(snapshot.players[0].id, signed.compute_txid().to_string());
    assert_eq!(snapshot.players[0].facing, 1);
    assert!(!snapshot.players[0].is_me);

    let mut again = MoveSync::new(&batch.candidates);
    assert_eq!(app.continue_move_sync(&mut again, &batch), None);
    assert_eq!(app.snapshot("v", NOW).events, 1);
}

#[test]
fn unindexed_burns_wait_and_foreign_ones_are_dropped() {
    let (signed, checkpoint, action, mut found) = stranger_move();
    let mut app = game();
    app.read_registry(&[record(signed.compute_txid(), 0, 330)], &table(&[&signed]));
    found.created_at = None;
    let mut batch = MoveBatch {
        candidates: vec![found.clone()],
        txs: table(&[&action]),
        carriers: table(&[&checkpoint]),
    };
    app.note_player_candidates(&batch.candidates);
    let mut sync = MoveSync::new(&batch.candidates);
    assert_eq!(app.continue_move_sync(&mut sync, &batch), None);
    assert_eq!(sync.accepted(), 0);
    let mut waiting = app.begin_player_scan();
    assert_eq!(waiting.len(), 1);

    let mut indexed = found.clone();
    indexed.created_at = Some(8);
    app.merge_player_records(&mut waiting, &[indexed, record(id(3), 0, 1)]);
    assert_eq!(waiting.len(), 2);
    assert_eq!(waiting[0].created_at, Some(8));

    found.amount_sats = 331;
    found.created_at = Some(8);
    batch.candidates = vec![found];
    let mut sync = MoveSync::new(&batch.candidates);
    assert_eq!(app.continue_move_sync(&mut sync, &batch), None);
    assert_eq!(sync.accepted(), 0);
    assert!(app.begin_player_scan().is_empty());
}

#[test]
fn player_scans_stop_at_known_pages() {
    let (signed, _, _, found) = stranger_move();
    let mut app = game();
    app.read_registry(&[record(signed.compute_txid(), 0, 330)], &table(&[&signed]));
    let scripts = app.player_scripts();
    assert!(app.scans_all(&scripts, false));
    app.note_scanned(&scripts);
    assert!(!app.scans_all(&scripts, false));
    assert!(app.scans_all(&scripts, true));
    app.note_player_candidates(&[found.clone()]);
    let sync = app.plan_game_sync(NOW);
    app.finish_game_sync(sync, true, 1, 0, NOW);
    let known = page(vec![found], 1, 2, 2);
    let mut all = Vec::new();
    assert_eq!(app.absorb_player_page(&mut all, &known, false), None);
    assert_eq!(app.absorb_player_page(&mut all, &known, true), Some(2));
    assert_eq!(all.len(), 2);
}

#[test]
fn requests_are_cut_into_batches() {
    let scripts: Vec<String> = (0..45).map(|i| i.to_string()).collect();
    assert_eq!(script_batch(&scripts, 0).len(), 20);
    assert_eq!(script_batch(&scripts, 40), vec!["40", "41", "42", "43", "44"]);
    let ids: Vec<Txid> = (0..41).map(id).collect();
    assert_eq!(next_batch(&ids, 0).len(), 40);
    assert_eq!(next_batch(&ids, 40), vec![id(40).to_string()]);
}

#[test]
fn transactions_are_fetched_once() {
    let mut app = game();
    let known = plain_psbt(4);
    let ids = [known.compute_txid(), id(9), id(9)];
    let mut plan = app.plan_fetch(&ids);
    assert!(plan.missing == vec![known.compute_txid(), id(9)]);
    app.store_fetched(&mut plan.found, &[known.clone()]);
    assert!(plan.found.contains_key(known.compute_txid()));
    assert!(app.plan_fetch(&ids).missing == vec![id(9)]);
}

#[test]
fn newest_own_pack_is_selected() {
    let mut app = game();
    let own = registration(own_script(&app));
    let foreign = registration(stranger_script());
    let holding = |psbt: &Psbt, created_at: i64| {
        let mut found = record(psbt.compute_txid(), 1, 330);
        let asset = AssetId { txid: psbt.compute_txid(), group_index: 0 };
        found.assets = vec![(asset.to_string(), 2)];
        found.created_at = Some(created_at);
        found
    };
    let spendable = [holding(&own, 5), holding(&foreign, 9)];
    let mut search = app.begin_discovery(&spendable);
    assert_eq!(app.continue_discovery(&mut search), Some(foreign.compute_txid()));
    app.discovery_fetched(&mut search, &Ok(vec![foreign.clone()])).unwrap();
    assert_eq!(app.continue_discovery(&mut search), Some(own.compute_txid()));
    let error = app.discovery_fetched(&mut search, &Ok(Vec::new())).unwrap_err();
    assert_eq!(
        error,
        format!("player registration {} is not indexed yet", own.compute_txid().to_string())
    );
    app.discovery_failed(&error);
    assert_eq!(app.player_id(), None);
    app.discovery_fetched(&mut search, &Ok(vec![own.clone()])).unwrap();
    assert_eq!(app.player_id(), Some(own.compute_txid()));
    assert_eq!(app.continue_discovery(&mut search), None);
}

#[test]
fn idle_ticks_synchronize_everything_at_once() {
    let (mut app, _) = playing();
    assert_eq!(
        app.begin_step(&[], QUIET, NOW),
        Beginning::Synchronize { parallel_game: true, diagnostics: true }
    );
    let synced = app.wallet_synced(Some(Ok(())), &Ok(Vec::new()), Some(Ok(Vec::new())), NOW);
    assert_eq!(
        synced,
        Some(WalletSynced { game_ready: Some(true), diagnostics_ready: true })
    );
    assert_eq!(
        app.begin_step(&[], QUIET, NOW + 999),
        Beginning::Synchronize { parallel_game: true, diagnostics: false }
    );
    assert_eq!(
        app.begin_step(&[1], QUIET, NOW),
        Beginning::Synchronize { parallel_game: false, diagnostics: false }
    );
    let mut fresh = game();
    assert_eq!(
        fresh.begin_step(&[], QUIET, NOW),
        Beginning::Synchronize { parallel_game: false, diagnostics: true }
    );
}

#[test]
fn errors_of_a_tick_are_reported_once() {
    let mut app = game();
    let failed: Result<Vec<VtxoRecord>, String> = Err("offline".to_string());
    assert_eq!(app.wallet_synced(None, &failed, None, NOW), None);
    assert_eq!(app.wallet_synced(None, &failed, None, NOW), None);
    let snapshot = app.snapshot("v", NOW);
    assert_eq!(snapshot.last_error, Some("wallet sync: offline".to_string()));
    assert_eq!(snapshot.log.len(), 2);
    let synced = app
        .wallet_synced(
            Some(Err("slow".to_string())),
            &Ok(Vec::new()),
            Some(Err("partial".to_string())),
            NOW,
        )
        .unwrap();
    assert_eq!(synced.game_ready, Some(false));
    assert!(!synced.diagnostics_ready);
    assert_eq!(
        app.snapshot("v", NOW).last_error,
        Some("wallet diagnostics: partial".to_string())
    );
    assert!(!app.game_synced(&Err("gone".to_string())));
    assert!(app.game_synced(&Ok(())));
    assert_eq!(app.play(QUIET, true, true), PlayStep::Stop);
    assert_eq!(app.snapshot("v", NOW).last_error, None);
}

#[test]
fn ticks_settle_what_is_pending_first() {
    let (mut app, _) = issued();
    let synced = WalletSynced { game_ready: None, diagnostics_ready: false };
    let ready = WalletSynced { game_ready: None, diagnostics_ready: true };
    let sweep = Wishes { sweep: true, ..QUIET };
    assert_eq!(app.wallet_known(&[], sweep, synced, NOW), WalletStep::Stop);
    assert_eq!(app.wallet_known(&[], sweep, ready, NOW), WalletStep::Resume);
    let mut idle = game();
    assert_eq!(idle.wallet_known(&[], sweep, ready, NOW), WalletStep::Sweep);
    assert_eq!(idle.wallet_known(&[], QUIET, ready, NOW), WalletStep::RefreshGame);
    let funded = [record(id(1), 0, 660)];
    let enter = Wishes { enter_game: true, ..QUIET };
    assert_eq!(idle.wallet_known(&funded, enter, ready, NOW), WalletStep::RefreshGame);
    assert_eq!(idle.play(enter, false, true), PlayStep::Stop);
    assert_eq!(idle.play(enter, true, true), PlayStep::Issue);
}

#[test]
fn registry_and_players_are_polled_in_turn() {
    let mut app = game();
    let first = app.plan_game_sync(NOW);
    assert!(first.periodic_full && first.registry_due && first.registry_first);
    assert!(first.players_full);
    assert!(!registry_is_next(first, 0));
    app.registry_synced(NOW);
    app.finish_game_sync(first, true, 2, 3, NOW);
    let snapshot = app.snapshot("v", NOW);
    assert_eq!(snapshot.log[1..], ["discovered 2 new players", "synced 3 protocol burns"]);
    assert_eq!(snapshot.last_sync_ms, NOW);

    let soon = app.plan_game_sync(NOW + 499);
    assert!(!soon.periodic_full && !soon.registry_due && !soon.registry_first);
    let due = app.plan_game_sync(NOW + 500);
    assert!(due.registry_due && !due.periodic_full);
    assert!(registry_is_next(due, 0));
    assert!(!registry_is_next(due, 1));
    assert!(app.plan_game_sync(NOW + 30_000).periodic_full);
}

#[test]
fn wallet_is_shown_by_outpoint_with_its_state() {
    let mut app = game();
    let now = (NOW / 1_000) as i64;
    let mut spent = record(id(1), 10, 400);
    spent.is_spent = true;
    spent.spent_by = Some("t".to_string());
    let confirmed = VtxoRecord { is_preconfirmed: false, ..record(id(1), 9, 400) };
    let small = record(id(1), 1, 329);
    let late = VtxoRecord { expires_at: Some(now), ..record(id(2), 0, 400) };
    let soon = VtxoRecord { expires_at: Some(now + 3_600), ..record(id(3), 0, 400) };
    let fresh = record(id(4), 0, 400);
    let swept = VtxoRecord { is_swept: true, ..record(id(5), 0, 400) };
    let unrolled = VtxoRecord { is_unrolled: true, is_spent: true, ..record(id(6), 0, 400) };
    assert_eq!(status_of_output(&fresh, 330, NOW), "preconfirmed");
    let history = vec![unrolled, swept, spent, fresh, soon, late, small, confirmed];
    app.wallet_synced(None, &Ok(Vec::new()), Some(Ok(history)), NOW).unwrap();
    let shown = app.snapshot("v", NOW);
    let list: Vec<(String, String)> = shown
        .wallet_vtxos
        .iter()
        .map(|v| (v.outpoint[62..].to_string(), v.status.clone()))
        .collect();
    let expected = [
        ("01:1", "recoverable"),
        ("01:10", "spent"),
        ("01:9", "confirmed"),
        ("02:0", "recoverable"),
        ("03:0", "expiring"),
        ("04:0", "preconfirmed"),
        ("05:0", "swept"),
        ("06:0", "unrolled"),
    ];
    assert_eq!(list.len(), expected.len());
    for (have, want) in list.iter().zip(expected) {
        assert_eq!((have.0.as_str(), have.1.as_str()), want);
    }
    assert_eq!(shown.wallet_vtxos[1].spent_by, Some("t".to_string()));
    assert_eq!(shown.known_balance, 400 + 329 + 400 + 400 + 400);
    assert_eq!(app.known_balance(), Some(1_929));
    assert_eq!(total_amount(&[record(id(1), 0, u64::MAX), record(id(1), 1, 1)]), None);
}

#[test]
fn snapshots_show_the_arena_and_the_operator() {
    let (app, _) = playing();
    let snapshot = app.snapshot("1.2.3", NOW);
    assert_eq!(snapshot.version, "1.2.3");
    assert_eq!(snapshot.server, MUTINYNET_SERVER);
    assert_eq!(snapshot.operator_version, "v1");
    assert_eq!(snapshot.network, "mutinynet");
    assert_eq!(snapshot.signer.len(), 64);
    assert_eq!(snapshot.phase, "playing");
    assert_eq!(snapshot.address, app.player_address());
    assert_eq!(snapshot.balance, 330);
    assert_eq!((snapshot.registration_cost, snapshot.reusable_carrier), (330, 330));
    assert_eq!((snapshot.arena_width, snapshot.arena_height, snapshot.max_hp), (21, 21, 3));
    assert_eq!(snapshot.houses.len(), 36);
    assert!(snapshot.walls.len() > 36);
    assert!(snapshot.players[0].is_me);
    assert_eq!(snapshot.players[0].hp, 3);
    assert!(snapshot.shot_traces.is_empty());
    assert!(snapshot.can_act);
    assert!(!snapshot.can_mint_pack);
}

#[test]
fn logs_are_bounded() {
    let mut app = game();
    for i in 0..150 {
        app.wallet_synced(None, &Err(format!("{i}")), None, NOW);
    }
    let log = app.snapshot("v", NOW).log;
    assert_eq!(log.len(), 100);
    assert_eq!(log.last().unwrap(), "wallet sync: 149");
}

#[test]
fn finished_moves_are_recognized_in_the_wallet() {
    let (mut app, spendable) = playing();
    app.queue_inputs(&[0]);
    app.begin_move(&spendable, NOW).unwrap();
    let player = app.player_id().unwrap();
    let signed = burn(OutPoint { txid: player, vout: 1 }, player, 0, 0, own_script(&app));
    let txid = signed.compute_txid();
    app.move_prepared(0, Ok(submission(signed)));
    let journal = app.export_pending_journal().unwrap();
    assert!(matches!(journal.action, PendingJournalAction::Move { direction: 0, sequence: 0, .. }));
    app.restore_pending_journal(journal).unwrap();
    let mut left = record(txid, 0, 330);
    left.assets = vec![(pack_assets(player)[0].to_string(), 2)];
    app.wallet_synced(None, &Ok(Vec::new()), Some(Ok(vec![left])), NOW).unwrap();
    assert!(matches!(app.resume_pending(), ResumeAction::Nothing));
    let snapshot = app.snapshot("v", NOW);
    assert!(!snapshot.pending);
    assert_eq!(snapshot.events, 1);
    assert_eq!(snapshot.move_balances[0], 3);
}
