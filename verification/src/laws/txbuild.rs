//! Transactions: what is handed over to build them, what they pay, and how a game starts.

use crate::address;
use crate::address::{Spend, Terms};
use crate::arkade::{Network, Params, Record, ServerParams};
use crate::chain;
use crate::chain::{AssetId, Txid};
use crate::gamelog::Group;
use crate::match_;
use crate::match_::{App, Phase, StartError};
use crate::psbt::Signed;
use crate::text;
use crate::txbuild;
use crate::txbuild::Fault;
use vstd::prelude::*;

verus! {

/// Transactions are built with the operator's own parameters, sessions of a minute and a weight of at
/// most 40,000.
pub proof fn law_transactions_follow_the_operator(params: Params)
    ensures
        ({
            let setup = txbuild::setup_of(params);
            &&& setup.signer == params.signer_pk
            &&& setup.forfeit_address == params.forfeit_address
            &&& setup.checkpoint_tapscript == params.checkpoint_tapscript
            &&& setup.exit_delay == params.unilateral_exit_delay
            &&& setup.vtxo_min == params.vtxo_min_sats
            &&& setup.dust == params.dust_sats
            &&& setup.max_op_return_outputs == params.max_op_return_outputs
            &&& setup.session_duration == 60
            &&& setup.max_tx_weight == 40_000
            &&& params.network == Network::Bitcoin ==> setup.network == "bitcoin"@
            &&& params.network == Network::Testnet ==> setup.network == "testnet"@
            &&& params.network == Network::Testnet4 ==> setup.network == "testnet4"@
            &&& params.network == Network::Signet ==> setup.network == "signet"@
            &&& params.network == Network::Regtest ==> setup.network == "regtest"@
        }),
{
}

/// A contract is one between an owner and the operator's signer, with the operator's exit delay, on
/// the operator's network.
pub proof fn law_contracts_bind_owner_and_operator(owner: Seq<u8>, params: ServerParams)
    ensures
        ({
            let terms = txbuild::terms_of(owner, params@);
            &&& terms.owner == owner
            &&& terms.signer == params.signer_pk@
            &&& terms.exit_delay == params.unilateral_exit_delay
            &&& terms.network == params.network
            &&& address::contract_of(owner, params) is Some <==> address::vtxo_exists(terms)
            &&& address::vtxo_exists(terms) ==> address::contract_of(owner, params) == Some(
                (address::vtxo_address(terms), address::vtxo_script(terms)),
            )
        }),
{
}

/// Whether a spend spends the output of a record under some terms, with the record's amount.
pub open spec fn spends(spend: Spend, terms: Terms, record: Record) -> bool {
    &&& spend.terms == terms
    &&& spend.outpoint == record.outpoint
    &&& spend.amount == record.amount_sats
}

/// Every record is spent, in order, with its own amount and its readable assets.
pub proof fn law_every_record_is_spent(
    terms: Terms,
    records: Seq<Record>,
    assets: Seq<(Seq<char>, u64)>,
    more: (Seq<char>, u64),
    i: int,
)
    ensures
        txbuild::spends_of(terms, records).len() == records.len(),
        0 <= i < records.len() ==> spends(
            txbuild::spends_of(terms, records)[i],
            terms,
            records[i],
        ),
        0 <= i < records.len() && records[i].assets == assets ==> txbuild::spends_of(
            terms,
            records,
        )[i].assets == txbuild::valid_assets(assets),
        txbuild::valid_assets(Seq::empty()) == Seq::<(AssetId, u64)>::empty(),
        chain::asset_id_of(more.0) matches Some(id) ==> txbuild::valid_assets(assets.push(more))
            == txbuild::valid_assets(assets).push((id, more.1)),
        chain::asset_id_of(more.0) is None ==> txbuild::valid_assets(assets.push(more))
            == txbuild::valid_assets(assets),
{
    assert(assets.push(more).drop_last() =~= assets);
}

/// A payment is raised to the whole total exactly where it would leave change below the dust limit.
pub proof fn law_small_change_is_paid_too(total: u64, amount: u64, dust: u64)
    requires
        amount <= total,
    ensures
        ({
            let paid = txbuild::folded_amount(total as int, amount, dust);
            &&& total == amount ==> paid == amount
            &&& total - amount >= dust ==> paid == amount
            &&& total > amount && total - amount < dust ==> paid == total
        }),
{
}

/// Attached data is an output of no value before the last one; the rest stays where it was.
pub proof fn law_data_is_attached_before_the_last_output(psbt: Signed, payload: Seq<u8>, i: int)
    requires
        psbt.tx.output.len() > 0,
        payload.len() <= 65_535,
    ensures
        txbuild::attached(psbt, payload) is Ok,
        ({
            let n = psbt.tx.output.len() as int;
            let tx = txbuild::attached(psbt, payload)->Ok_0.tx;
            &&& tx.input == psbt.tx.input
            &&& tx.output.len() == n + 1
            &&& tx.output[n] == psbt.tx.output[n - 1]
            &&& tx.output[n - 1].value == 0
            &&& tx.output[n - 1].script[0] == 0x6a
            &&& payload.len() <= 75 ==> tx.output[n - 1].script.skip(2) == payload
            &&& 0 <= i < n - 1 ==> tx.output[i] == psbt.tx.output[i]
        }),
{
    crate::laws::text::law_data_is_pushed_in_the_shortest_form(payload);
}

/// A payment spends the records, pays one receiver, and sends the change back to the owner.
pub proof fn law_payments_pay_one_receiver(
    owner: Seq<u8>,
    params: Params,
    info: txbuild::Setup,
    records: Seq<Record>,
    receiver: Seq<char>,
    amount: u64,
    total: u64,
    handed: Seq<Spend>,
)
    requires
        match_::total_sats(records) == total,
        amount <= total,
        handed == txbuild::spends_of(txbuild::terms_of(owner, params), records),
    ensures
        ({
            let terms = txbuild::terms_of(owner, params);
            let own = address::vtxo_address(terms);
            let paid = if total > amount && total - amount < params.dust_sats {
                total
            } else {
                amount
            };
            let built = txbuild::offchain_payment(seq![(receiver, paid)], own, handed, info);
            let result = txbuild::payment_tx(owner, params, info, records, receiver, amount);
            &&& !address::vtxo_exists(terms) ==> result == Err::<(Signed, Seq<Signed>), Fault>(
                Fault::Contract,
            )
            &&& address::vtxo_exists(terms) ==> (built matches Ok(txs) ==> result == Ok::<
                (Signed, Seq<Signed>),
                Fault,
            >(txs))
            &&& address::vtxo_exists(terms) ==> (built matches Err(error) ==> result == Err::<
                (Signed, Seq<Signed>),
                Fault,
            >(Fault::Builder(error)))
        }),
{
    law_small_change_is_paid_too(total, amount, params.dust_sats);
}

/// An event pays its owner the dust limit out of one record, with the event's data attached.
pub proof fn law_events_pay_their_owner(
    owner: Seq<u8>,
    params: Params,
    info: txbuild::Setup,
    input: Record,
    payload: Seq<u8>,
)
    requires
        payload.len() <= 65_535,
    ensures
        ({
            let own = address::vtxo_address(txbuild::terms_of(owner, params));
            let paid = txbuild::payment_tx(
                owner,
                params,
                info,
                seq![input],
                own,
                params.dust_sats,
            );
            let result = txbuild::event_tx(owner, params, info, input, payload);
            &&& paid matches Ok(txs) ==> (result matches Ok(event) && event.0
                == txbuild::attached(txs.0, payload)->Ok_0 && event.1 == txs.1)
            &&& paid matches Err(fault) ==> result == Err::<(Signed, Seq<Signed>), Fault>(fault)
        }),
{
}

/// An issuance spends one record, goes to its owner with the given amount and metadata, and names the
/// first asset issued; one that issues none is an error.
pub proof fn law_issuances_go_to_their_owner(
    owner: Seq<u8>,
    params: Params,
    info: txbuild::Setup,
    input: Record,
    amount: u64,
    metadata: Seq<(Seq<char>, Seq<char>)>,
)
    ensures
        ({
            let terms = txbuild::terms_of(owner, params);
            let built = txbuild::offchain_issuance(
                address::vtxo_address(terms),
                seq![txbuild::spend_of(terms, input)],
                info,
                amount,
                metadata,
                usize::BITS,
            );
            let result = txbuild::issue_tx(owner, params, info, input, amount, metadata);
            &&& result is Ok <==> address::vtxo_exists(terms) && (built matches Ok(txs)
                && txs.2.len() > 0)
            &&& result matches Ok(txs) ==> {
                &&& txs.0 == built->Ok_0.0
                &&& txs.1 == built->Ok_0.1
                &&& txs.2 == built->Ok_0.2[0]
            }
            &&& !address::vtxo_exists(terms) ==> result->Err_0 == Fault::Contract
            &&& address::vtxo_exists(terms) ==> (built matches Err(error) ==> result->Err_0
                == Fault::Builder(error))
            &&& address::vtxo_exists(terms) ==> (built matches Ok(txs) ==> (txs.2.len() == 0
                ==> result->Err_0 == Fault::NoAsset))
        }),
{
}

/// A burn spends all the records for its owner, burns the amount of the asset, and has the data
/// attached.
pub proof fn law_burns_carry_their_receipt(
    owner: Seq<u8>,
    params: Params,
    info: txbuild::Setup,
    records: Seq<Record>,
    asset: AssetId,
    amount: u64,
    payload: Seq<u8>,
)
    requires
        payload.len() <= 65_535,
    ensures
        ({
            let terms = txbuild::terms_of(owner, params);
            let built = txbuild::offchain_burn(
                address::vtxo_address(terms),
                txbuild::spends_of(terms, records),
                info,
                asset,
                amount,
                usize::BITS,
            );
            let result = txbuild::burn_tx(owner, params, info, records, asset, amount, payload);
            &&& result is Ok <==> address::vtxo_exists(terms) && built is Ok
            &&& result matches Ok(txs) ==> {
                &&& txs.0 == txbuild::attached(built->Ok_0.0, payload)->Ok_0
                &&& txs.1 == built->Ok_0.1
            }
            &&& !address::vtxo_exists(terms) ==> result->Err_0 == Fault::Contract
            &&& address::vtxo_exists(terms) ==> (built matches Err(error) ==> result->Err_0
                == Fault::Builder(error))
        }),
{
}

/// A pack is four fresh groups, one for each move, of fifty units in output one.
pub proof fn law_packs_hold_fifty_of_each_move(groups: Seq<Group>, direction: int)
    requires
        groups == txbuild::pack_groups(),
        0 <= direction < 4,
    ensures
        groups.len() == 4,
        groups[direction].asset_id is None,
        !groups[direction].has_control_asset,
        groups[direction].inputs.len() == 0,
        groups[direction].outputs.len() == 1,
        groups[direction].outputs[0].index == 1,
        groups[direction].outputs[0].amount == 50,
        ({
            let key = if direction == 0 {
                "w"@
            } else if direction == 1 {
                "d"@
            } else if direction == 2 {
                "s"@
            } else {
                "a"@
            };
            groups[direction].metadata matches Some(pairs) && pairs == seq![
                ("game"@, "arkade-maze-v2"@),
                ("move"@, key),
            ]
        }),
{
}

/// A registration pays the dust limit to the game and, in output one, to the owner, sends the change
/// to the owner, and issues the pack.
pub proof fn law_registrations_pay_game_and_owner(
    owner: Seq<u8>,
    params: Params,
    info: txbuild::Setup,
    records: Seq<Record>,
    game: Seq<char>,
)
    ensures
        ({
            let terms = txbuild::terms_of(owner, params);
            let own = address::vtxo_address(terms);
            let built = txbuild::offchain_payment(
                seq![(game, params.dust_sats), (own, params.dust_sats)],
                own,
                txbuild::spends_of(terms, records),
                info,
            );
            let packed = txbuild::psbt_with_packet(
                built->Ok_0.0,
                txbuild::pack_groups(),
                usize::BITS,
            );
            let result = txbuild::registration_tx(owner, params, info, records, game);
            &&& result is Ok <==> address::vtxo_exists(terms) && built is Ok && packed is Ok
            &&& result matches Ok(txs) ==> txs.0 == packed->Ok_0 && txs.1 == built->Ok_0.1
            &&& !address::vtxo_exists(terms) ==> result->Err_0 == Fault::Contract
            &&& address::vtxo_exists(terms) ==> (built matches Err(error) ==> result->Err_0
                == Fault::Builder(error))
            &&& address::vtxo_exists(terms) && built is Ok ==> (packed matches Err(error)
                ==> result->Err_0 == Fault::Builder(error))
        }),
{
}

/// A sweep moves the whole balance and every asset gathered from the records.
pub proof fn law_sweeps_move_everything(
    owner: Seq<u8>,
    params: Params,
    info: txbuild::Setup,
    records: Seq<Record>,
    recipient: Seq<char>,
    total: u64,
)
    requires
        match_::total_sats(records) == total,
        forall|id: AssetId| #[trigger]
            txbuild::units_spent(
                txbuild::spends_of(txbuild::terms_of(owner, params), records),
                id,
            ) <= u64::MAX,
    ensures
        ({
            let terms = txbuild::terms_of(owner, params);
            let spent = txbuild::spends_of(terms, records);
            let assets = txbuild::gathered(records);
            let built = txbuild::offchain_transfer(
                recipient,
                total,
                assets,
                address::vtxo_address(terms),
                spent,
                info,
                usize::BITS,
            );
            let result = txbuild::sweep_tx(owner, params, info, records, recipient);
            &&& forall|i: int, j: int|
                0 <= i < j < assets.len() ==> (#[trigger] assets[i]).0 != (#[trigger] assets[j]).0
            &&& forall|id: AssetId| #[trigger]
                txbuild::units_among(assets, id) == txbuild::units_spent(spent, id)
            &&& result is Ok <==> address::vtxo_exists(terms) && built is Ok
            &&& result matches Ok(txs) ==> built == Ok::<(Signed, Seq<Signed>), Seq<char>>(txs)
            &&& !address::vtxo_exists(terms) ==> result->Err_0 == Fault::Contract
            &&& address::vtxo_exists(terms) ==> (built matches Err(error) ==> result->Err_0
                == Fault::Builder(error))
        }),
{
    txbuild::law_gathering_keeps_every_unit(txbuild::terms_of(owner, params), records);
}

/// Sums go over all the outputs, all the assets and all the receivers.
pub proof fn law_sums_add_up(
    spent: Seq<Spend>,
    spend: Spend,
    assets: Seq<(AssetId, u64)>,
    asset: (AssetId, u64),
    receivers: Seq<(Seq<char>, u64)>,
    receiver: (Seq<char>, u64),
    id: AssetId,
)
    ensures
        txbuild::total_spent(Seq::empty()) == 0,
        txbuild::total_spent(spent.push(spend)) == txbuild::total_spent(spent) + spend.amount,
        txbuild::total_paid(Seq::empty()) == 0,
        txbuild::total_paid(receivers.push(receiver)) == txbuild::total_paid(receivers)
            + receiver.1,
        txbuild::units_among(Seq::empty(), id) == 0,
        asset.0 == id ==> txbuild::units_among(assets.push(asset), id) == txbuild::units_among(
            assets,
            id,
        ) + asset.1,
        asset.0 != id ==> txbuild::units_among(assets.push(asset), id) == txbuild::units_among(
            assets,
            id,
        ),
        txbuild::units_spent(Seq::empty(), id) == 0,
        txbuild::units_spent(spent.push(spend), id) == txbuild::units_spent(spent, id)
            + txbuild::units_among(spend.assets, id),
{
    assert(spent.push(spend).drop_last() =~= spent);
    assert(receivers.push(receiver).drop_last() =~= receivers);
    assert(assets.push(asset).drop_last() =~= assets);
}

/// The input that spends a transaction is the last one that does; there is none exactly where no
/// input does.
pub proof fn law_the_spending_input_is_found(inputs: Seq<chain::TxIn>, txid: Txid)
    ensures
        txbuild::input_spending(inputs, txid) matches Some(i) ==> {
            &&& 0 <= i < inputs.len()
            &&& inputs[i].previous_output.txid == txid
            &&& forall|k: int|
                i < k < inputs.len() ==> (#[trigger] inputs[k]).previous_output.txid != txid
        },
        txbuild::input_spending(inputs, txid) is None <==> forall|k: int|
            0 <= k < inputs.len() ==> (#[trigger] inputs[k]).previous_output.txid != txid,
    decreases inputs.len(),
{
    if inputs.len() > 0 {
        let rest = inputs.drop_last();
        law_the_spending_input_is_found(rest, txid);
        assert(forall|k: int| 0 <= k < rest.len() ==> rest[k] == inputs[k]);
        assert(inputs.last() == inputs[inputs.len() - 1]);
        if txbuild::input_spending(inputs, txid) is None {
            assert forall|k: int| 0 <= k < inputs.len() implies (
            #[trigger] inputs[k]).previous_output.txid != txid by {
                if k < rest.len() {
                    assert(rest[k] == inputs[k]);
                }
            }
        }
        if forall|k: int|
            0 <= k < inputs.len() ==> (#[trigger] inputs[k]).previous_output.txid != txid {
            assert forall|k: int| 0 <= k < rest.len() implies (
            #[trigger] rest[k]).previous_output.txid != txid by {
                assert(rest[k] == inputs[k]);
            }
        }
        if let Some(i) = txbuild::input_spending(inputs, txid) {
            assert forall|k: int| i < k < inputs.len() implies (
            #[trigger] inputs[k]).previous_output.txid != txid by {
                if k < rest.len() {
                    assert(rest[k] == inputs[k]);
                }
            }
        }
    }
}

/// A checkpoint takes its witness script from the input that spends it, unless it has one in place; a
/// checkpoint without either leaves none of them signed.
pub proof fn law_checkpoints_take_the_spending_script(
    ark_tx: Signed,
    checkpoints: Seq<Signed>,
    in_place: Seq<bool>,
    i: int,
)
    requires
        in_place.len() == checkpoints.len(),
    ensures
        txbuild::witness_sources(ark_tx, checkpoints, in_place) matches Some(sources) ==> {
            &&& sources.len() == checkpoints.len()
            &&& 0 <= i < sources.len() && in_place[i] ==> sources[i] is None
            &&& 0 <= i < sources.len() && !in_place[i] ==> sources[i] is Some && 0
                <= sources[i].unwrap() < ark_tx.tx.input.len()
                && ark_tx.tx.input[sources[i].unwrap()].previous_output.txid
                == checkpoints[i].txid()
        },
        txbuild::witness_sources(ark_tx, checkpoints, in_place) is None <==> exists|k: int|
            0 <= k < checkpoints.len() && !in_place[k] && #[trigger] is_unspent(
                ark_tx,
                checkpoints[k],
            ),
{
    lemma_sources(ark_tx, checkpoints, in_place, i);
}

/// Whether no input of a transaction spends a checkpoint.
pub open spec fn is_unspent(ark_tx: Signed, checkpoint: Signed) -> bool {
    forall|j: int|
        0 <= j < ark_tx.tx.input.len() ==> (#[trigger] ark_tx.tx.input[j]).previous_output.txid
            != checkpoint.txid()
}

proof fn lemma_sources(ark_tx: Signed, checkpoints: Seq<Signed>, in_place: Seq<bool>, i: int)
    requires
        in_place.len() >= checkpoints.len(),
    ensures
        txbuild::witness_sources(ark_tx, checkpoints, in_place) matches Some(sources) ==> {
            &&& sources.len() == checkpoints.len()
            &&& 0 <= i < sources.len() && in_place[i] ==> sources[i] is None
            &&& 0 <= i < sources.len() && !in_place[i] ==> sources[i] is Some && 0
                <= sources[i].unwrap() < ark_tx.tx.input.len()
                && ark_tx.tx.input[sources[i].unwrap()].previous_output.txid
                == checkpoints[i].txid()
        },
        txbuild::witness_sources(ark_tx, checkpoints, in_place) is None <==> exists|k: int|
            0 <= k < checkpoints.len() && !in_place[k] && #[trigger] is_unspent(
                ark_tx,
                checkpoints[k],
            ),
    decreases checkpoints.len(),
{
    if checkpoints.len() > 0 {
        let rest = checkpoints.drop_last();
        let n = checkpoints.len() - 1;
        lemma_sources(ark_tx, rest, in_place, i);
        law_the_spending_input_is_found(ark_tx.tx.input, checkpoints[n].txid());
        assert(forall|k: int| 0 <= k < n ==> rest[k] == checkpoints[k]);
        if exists|k: int|
            0 <= k < rest.len() && !in_place[k] && #[trigger] is_unspent(ark_tx, rest[k]) {
            let k = choose|k: int|
                0 <= k < rest.len() && !in_place[k] && #[trigger] is_unspent(ark_tx, rest[k]);
            assert(is_unspent(ark_tx, checkpoints[k]));
        }
        if exists|k: int|
            0 <= k < checkpoints.len() && !in_place[k] && #[trigger] is_unspent(
                ark_tx,
                checkpoints[k],
            ) {
            let k = choose|k: int|
                0 <= k < checkpoints.len() && !in_place[k] && #[trigger] is_unspent(
                    ark_tx,
                    checkpoints[k],
                );
            if k < n {
                assert(is_unspent(ark_tx, rest[k]));
            }
        }
        if !in_place[n] && txbuild::input_spending(ark_tx.tx.input, checkpoints[n].txid())
            is None {
            assert(is_unspent(ark_tx, checkpoints[n]));
        }
    }
}

/// There are three attempts to finalize: at once, after half a second, and after a second.
pub proof fn law_finalizing_is_tried_three_times(attempt: u32)
    ensures
        attempt == 0 ==> txbuild::finalize_delay(attempt) == Some(0u64),
        attempt == 1 ==> txbuild::finalize_delay(attempt) == Some(500u64),
        attempt == 2 ==> txbuild::finalize_delay(attempt) == Some(1000u64),
        attempt >= 3 ==> txbuild::finalize_delay(attempt) is None,
{
}

/// A game starts exactly at the supported operator, where that allows two data outputs and outputs at
/// the dust limit, and where the registry has the known address.
pub proof fn law_games_start_at_the_supported_operator(
    owner: Seq<u8>,
    server: Seq<char>,
    params: ServerParams,
)
    ensures
        ({
            let started = match_::started(owner, server, params);
            let limits = params.max_op_return_outputs >= 2 && params.vtxo_min_sats
                <= params.dust_sats;
            let supported = server == "https://mutinynet.arkade.sh"@ && params.network_name@
                == "mutinynet"@;
            let registry = address::contract_of(address::NUMS_KEY@, params);
            let known = registry is Some && registry.unwrap().0 == match_::GAME_ADDRESS@;
            let player = address::contract_of(owner, params);
            &&& started is Ok <==> limits && supported && known && player is Some
            &&& !limits ==> started == Err::<App, StartError>(StartError::OperatorLimits)
            &&& limits && !supported ==> started == Err::<App, StartError>(
                StartError::UnsupportedServer,
            )
            &&& limits && supported && registry is None ==> started == Err::<App, StartError>(
                StartError::Registry,
            )
            &&& limits && supported && registry is Some && !known ==> started == Err::<
                App,
                StartError,
            >(StartError::RegistryMismatch)
            &&& limits && supported && known && player is None ==> started == Err::<
                App,
                StartError,
            >(StartError::PlayerContract)
        }),
{
}

/// A game starts empty: an unfunded wallet with nothing pending, nobody registered, nothing seen.
pub proof fn law_games_start_empty(owner: Seq<u8>, server: Seq<char>, params: ServerParams)
    requires
        match_::started(owner, server, params) is Ok,
    ensures
        ({
            let app = match_::started(owner, server, params)->Ok_0;
            let player = address::contract_of(owner, params).unwrap();
            let registry = address::contract_of(address::NUMS_KEY@, params).unwrap();
            &&& app.server == server
            &&& app.params == params@
            &&& app.player_address == player.0
            &&& text::hex_bytes(app.player_script) == Some(player.1)
            &&& app.game_address == registry.0
            &&& text::hex_bytes(app.game_script) == Some(registry.1)
            &&& app.phase == Phase::FundWallet
            &&& app.move_assets is None
            &&& app.move_pack_created_at is None
            &&& app.move_balances.len() == 6
            &&& forall|i: int| 0 <= i < 6 ==> #[trigger] app.move_balances[i] == 0
            &&& !app.carrier_available && !app.issuance_visible && !app.funding_ready
            &&& app.next_sequence == 0
            &&& app.pending_dirs.len() == 0
            &&& !app.sending
            &&& app.pending_action is None
            &&& !app.pending_needs_recovery
            &&& app.events.len() == 0
            &&& app.registered_players.dom() == Set::<Txid>::empty()
            &&& app.balance_cache == 0
            &&& app.wallet_records.len() == 0
            &&& !app.initial_registry_sync && !app.initial_player_sync
            &&& app.registry_sync_ms == 0 && app.full_game_sync_ms == 0
            &&& app.wallet_sync_ms == 0 && app.last_sync_ms == 0
            &&& app.last_error is None
            &&& app.log.len() == 1
        }),
{
    let player = address::contract_of(owner, params).unwrap();
    let registry = address::contract_of(address::NUMS_KEY@, params).unwrap();
    text::law_hex_round_trip(player.1);
    text::law_hex_round_trip(registry.1);
}

proof fn lemma_run(front: Seq<char>, token: Seq<char>)
    requires
        front.len() > 0 ==> !match_::is_token_char(front.last()),
        forall|i: int| 0 <= i < token.len() ==> match_::is_token_char(#[trigger] token[i]),
    ensures
        match_::trailing_run(front + token) == token,
    decreases token.len(),
{
    let whole = front + token;
    if token.len() > 0 {
        lemma_run(front, token.drop_last());
        assert(whole.drop_last() =~= front + token.drop_last());
        assert(whole.last() == token.last());
        assert(token.drop_last().push(token.last()) =~= token);
    } else {
        assert(whole =~= front);
    }
}

proof fn lemma_gap(before: Seq<char>, gap: Seq<char>, other: spec_fn(char) -> bool)
    requires
        before.len() > 0,
        !other(before.last()),
        forall|i: int| 0 <= i < gap.len() ==> other(#[trigger] gap[i]),
    ensures
        text::without_trailing(before + gap, other) == before,
    decreases gap.len(),
{
    let whole = before + gap;
    if gap.len() > 0 {
        lemma_gap(before, gap.drop_last(), other);
        assert(whole.drop_last() =~= before + gap.drop_last());
        assert(whole.last() == gap.last());
    } else {
        assert(whole =~= before);
    }
}

/// Whether a character can stand in the name of an output.
pub open spec fn is_name_char(c: char) -> bool {
    '0' <= c <= '9' || 'a' <= c <= 'f' || 'A' <= c <= 'F' || c == ':' || c == '.'
}

/// Whether a text names an output: 64 hexadecimal digits, a colon and a number of 32 bits.
pub open spec fn names_output(name: Seq<char>) -> bool {
    &&& name.len() > 65
    &&& forall|i: int| 0 <= i < 64 ==> #[trigger] name[i] != ':' && name[i] != '.'
    &&& name[64] == ':'
    &&& text::digits_value(name.skip(65)) is Some
    &&& text::digits_value(name.skip(65)).unwrap() <= 4_294_967_295
}

/// An error that says `already spent` reports the output named last before these words, and no other:
/// where what stands there names no output, none is reported.
pub proof fn law_spent_outputs_are_read_from_errors(
    front: Seq<char>,
    name: Seq<char>,
    gap: Seq<char>,
    rest: Seq<char>,
    body: Seq<char>,
)
    requires
        front.len() > 0 ==> !is_name_char(front.last()),
        name.len() > 0,
        forall|i: int| 0 <= i < name.len() ==> is_name_char(#[trigger] name[i]),
        forall|i: int| 0 <= i < gap.len() ==> !is_name_char(#[trigger] gap[i]),
        body == front + name + gap + "already spent"@ + rest,
        forall|i: int|
            0 <= i < front.len() + name.len() + gap.len() ==> #[trigger] body.subrange(i, i + 13)
                != "already spent"@,
    ensures
        names_output(name) ==> match_::spent_outpoint(body) == Some(name),
        !names_output(name) ==> match_::spent_outpoint(body) is None,
{
    reveal_strlit("already spent");
    let words = "already spent"@;
    assert(words.len() == 13);
    let before = front + name + gap;
    let at = before.len() as int;
    assert(body.subrange(at, at + 13) =~= words);
    assert(match_::occurs_at(body, words, at));
    assert forall|i: int| i < at implies !#[trigger] match_::occurs_at(body, words, i) by {
        if 0 <= i {
            assert(body.subrange(i, i + 13) != words);
        }
    }
    assert(match_::first_at(body, words, at));
    let first = choose|first: int| match_::first_at(body, words, first);
    assert(first == at) by {
        assert(match_::first_at(body, words, first));
        if first < at {
            assert(!match_::occurs_at(body, words, first));
        } else if at < first {
            assert(!match_::occurs_at(body, words, at));
        }
    }
    assert(body.take(at) =~= before);
    let other = |c: char| !match_::is_token_char(c);
    assert((front + name).last() == name[name.len() - 1]);
    lemma_gap(front + name, gap, other);
    lemma_run(front, name);
    assert(match_::last_token(body.take(at)) == name);
    if names_output(name) {
        assert forall|i: int| 0 <= i < 64 implies match_::is_hex_digit(#[trigger] name[i]) by {
            assert(is_name_char(name[i]));
        }
    }
    if match_::is_outpoint(name) {
        assert forall|i: int| 0 <= i < 64 implies #[trigger] name[i] != ':' && name[i] != '.' by {
            assert(match_::is_hex_digit(name[i]));
        }
    }
}

/// An error without these words reports no output.
pub proof fn law_other_errors_report_nothing(body: Seq<char>)
    requires
        forall|i: int|
            0 <= i <= body.len() - 13 ==> #[trigger] body.subrange(i, i + 13) != "already spent"@,
    ensures
        match_::spent_outpoint(body) is None,
{
    reveal_strlit("already spent");
    assert forall|at: int| !#[trigger] match_::first_at(body, "already spent"@, at) by {
        if match_::occurs_at(body, "already spent"@, at) {
            assert(body.subrange(at, at + 13) != "already spent"@);
        }
    }
}

} // verus!
