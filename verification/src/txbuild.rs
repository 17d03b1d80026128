//! Builds the unsigned off-chain transactions of the wallet.

use crate::address;
use crate::address::{OffchainInput, PlayerVtxo, Spend, Terms};
use crate::arkade;
use crate::arkade::{Network, Params, Record, ServerParams, VtxoRecord};
use crate::chain;
use crate::chain::{AssetId, Output, TxOut, Txid};
use crate::gamelog;
use crate::gamelog::{AssetAssignment, AssetPacketGroup, Group};
use crate::psbt;
use crate::psbt::{Psbt, PsbtData, Signed};
use crate::script;
use ark_core::asset::AssetId as AssetKey;
use ark_core::asset::packet::{add_asset_packet_to_psbt, AssetGroup, AssetOutput, Packet};
use ark_core::send;
use ark_core::send::{OffchainTransactions, SendReceiver};
use ark_core::server::Info;
use ark_core::{ArkAddress, Asset};
use bitcoin::key::Parity;
use bitcoin::{Address, Amount, Sequence, XOnlyPublicKey};
use vstd::prelude::*;

verus! {

/// The type of an operator's configuration in `ark_core`.
#[verifier::external_type_specification]
#[verifier::external_body]
pub struct ExInfo(Info);

/// The duration of a session that builders are told; they do not read it.
pub const SESSION_DURATION: u64 = 60;

/// The weight limit that builders are told; they do not read it.
pub const MAX_TX_WEIGHT: i64 = 40_000;

/// What the builders are told of an operator.
#[verifier::ext_equal]
pub struct Setup {
    pub signer: Seq<u8>,
    pub forfeit_address: Seq<char>,
    pub checkpoint_tapscript: Seq<u8>,
    pub network: Seq<char>,
    pub exit_delay: u32,
    pub vtxo_min: u64,
    pub dust: u64,
    pub session_duration: u64,
    pub max_tx_weight: i64,
    pub max_op_return_outputs: i64,
}

/// What the builders are told of the operator with some parameters.
pub open spec fn setup_of(params: Params) -> Setup {
    Setup {
        signer: params.signer_pk,
        forfeit_address: params.forfeit_address,
        checkpoint_tapscript: params.checkpoint_tapscript,
        network: name_of(params.network),
        exit_delay: params.unilateral_exit_delay,
        vtxo_min: params.vtxo_min_sats,
        dust: params.dust_sats,
        session_duration: SESSION_DURATION,
        max_tx_weight: MAX_TX_WEIGHT,
        max_op_return_outputs: params.max_op_return_outputs,
    }
}

/// An operator as the builders know it.
pub struct OperatorInfo {
    inner: Info,
    setup: Ghost<Setup>,
}

impl View for OperatorInfo {
    type V = Setup;

    closed spec fn view(&self) -> Setup {
        self.setup@
    }
}

/// The name of a network.
pub open spec fn name_of(network: Network) -> Seq<char> {
    match network {
        Network::Bitcoin => "bitcoin"@,
        Network::Testnet => "testnet"@,
        Network::Testnet4 => "testnet4"@,
        Network::Signet => "signet"@,
        Network::Regtest => "regtest"@,
    }
}

fn network_name(network: Network) -> (name: &'static str)
    ensures
        name@ == name_of(network),
{
    match network {
        Network::Bitcoin => "bitcoin",
        Network::Testnet => "testnet",
        Network::Testnet4 => "testnet4",
        Network::Signet => "signet",
        Network::Regtest => "regtest",
    }
}

/// Whether the signer's key is a point, the forfeit address an address, and the network a network.
pub uninterp spec fn info_exists(
    signer: Seq<u8>,
    forfeit_address: Seq<char>,
    network: Seq<char>,
) -> bool;

/// An `ark_core::server::Info` with the given values; its other fields, which the builders do not
/// read, are empty. Whether `bitcoin` accepts the key, the address and the network is left to
/// `info_exists`.
#[verifier::external_body]
fn new_info(
    signer: &[u8; 32],
    forfeit_address: &str,
    checkpoint_tapscript: Vec<u8>,
    network: &str,
    exit_delay: u32,
    vtxo_min: u64,
    dust: u64,
    session_duration: u64,
    max_tx_weight: i64,
    max_op_return_outputs: i64,
) -> (info: Option<OperatorInfo>)
    ensures
        info is Some == info_exists(signer@, forfeit_address@, network@),
        info matches Some(info) ==> info@ == (Setup {
            signer: signer@,
            forfeit_address: forfeit_address@,
            checkpoint_tapscript: checkpoint_tapscript@,
            network: network@,
            exit_delay,
            vtxo_min,
            dust,
            session_duration,
            max_tx_weight,
            max_op_return_outputs,
        }),
{
    let signer_pk = XOnlyPublicKey::from_slice(signer).ok()?.public_key(Parity::Even);
    let address: Address<_> = forfeit_address.parse().ok()?;
    let delay = Sequence(exit_delay);
    let inner = Info {
        version: String::new(), digest: String::new(), deprecated_signers: vec![], service_status: Default::default(),
        signer_pk, forfeit_pk: signer_pk, forfeit_address: address.assume_checked(), network: network.parse().ok()?,
        checkpoint_tapscript: checkpoint_tapscript.into(), session_duration, max_tx_weight, max_op_return_outputs,
        unilateral_exit_delay: delay, boarding_exit_delay: delay,
        vtxo_min_amount: Some(Amount::from_sat(vtxo_min)), dust: Amount::from_sat(dust),
        vtxo_max_amount: None, utxo_min_amount: None, utxo_max_amount: None, fees: None, scheduled_session: None,
    };
    Some(OperatorInfo { inner, setup: Ghost(arbitrary()) })
}

/// Everything the builders need to know of an operator. Nothing where the operator's key or its
/// forfeit address is invalid.
pub fn server_info(params: &ServerParams) -> (info: Option<OperatorInfo>)
    ensures
        info is Some == info_exists(
            params@.signer_pk,
            params@.forfeit_address,
            name_of(params@.network),
        ),
        info matches Some(info) ==> info@ == setup_of(params@),
{
    new_info(
        &params.signer_pk,
        params.forfeit_address.as_str(),
        chain::copy_bytes(&params.checkpoint_tapscript),
        network_name(params.network),
        params.unilateral_exit_delay,
        params.vtxo_min_sats,
        params.dust_sats,
        SESSION_DURATION,
        MAX_TX_WEIGHT,
        params.max_op_return_outputs,
    )
}

/// Why a transaction cannot be built.
#[derive(Debug)]
pub enum TxError {
    /// There is no contract between the operator and the player.
    Contract,
    /// The builder refuses, with this message.
    Builder(String),
    /// The payload is too large for an output.
    Payload,
    /// The issuance has no asset.
    NoAsset,
}

/// What a `TxError` says.
#[verifier::ext_equal]
pub enum Fault {
    Contract,
    Builder(Seq<char>),
    Payload,
    NoAsset,
}

impl View for TxError {
    type V = Fault;

    open spec fn view(&self) -> Fault {
        match self {
            TxError::Contract => Fault::Contract,
            TxError::Builder(text) => Fault::Builder(text@),
            TxError::Payload => Fault::Payload,
            TxError::NoAsset => Fault::NoAsset,
        }
    }
}

/// The contract of an owner at an operator.
pub open spec fn terms_of(owner: Seq<u8>, params: Params) -> Terms {
    Terms {
        signer: params.signer_pk,
        owner,
        exit_delay: params.unilateral_exit_delay,
        network: params.network,
    }
}

/// The assets of a record that have a valid id.
pub open spec fn valid_assets(assets: Seq<(Seq<char>, u64)>) -> Seq<(AssetId, u64)>
    decreases assets.len(),
{
    if assets.len() == 0 {
        Seq::empty()
    } else {
        let before = valid_assets(assets.drop_last());
        match chain::asset_id_of(assets.last().0) {
            Some(id) => before.push((id, assets.last().1)),
            None => before,
        }
    }
}

/// What is spent when the output of a record is spent.
pub open spec fn spend_of(terms: Terms, record: Record) -> Spend {
    Spend {
        terms,
        outpoint: record.outpoint,
        amount: record.amount_sats,
        assets: valid_assets(record.assets),
    }
}

pub open spec fn spends_of(terms: Terms, records: Seq<Record>) -> Seq<Spend> {
    records.map_values(|r: Record| spend_of(terms, r))
}

pub open spec fn inputs_view(inputs: Seq<OffchainInput>) -> Seq<Spend> {
    inputs.map_values(|i: OffchainInput| i@)
}

fn parse_assets(assets: &[(String, u64)]) -> (valid: Vec<(AssetId, u64)>)
    ensures
        valid@ == valid_assets(arkade::amounts_view(assets@)),
{
    let ghost all = arkade::amounts_view(assets@);
    let mut valid: Vec<(AssetId, u64)> = Vec::new();
    let mut i: usize = 0;
    assert(all.take(0) =~= Seq::empty());
    while i < assets.len()
        invariant
            i <= assets@.len(),
            all == arkade::amounts_view(assets@),
            valid@ == valid_assets(all.take(i as int)),
        decreases assets@.len() - i,
    {
        proof {
            assert(all.take(i + 1).drop_last() =~= all.take(i as int));
            assert(all.take(i + 1).last() == (assets@[i as int].0@, assets@[i as int].1));
        }
        match parse_asset_id_pub(assets[i].0.as_str()) {
            Some(id) => {
                valid.push((id, assets[i].1));
            },
            None => {},
        }
        i += 1;
    }
    assert(all.take(all.len() as int) =~= all);
    valid
}

/// The asset with an id in text: the transaction id and two bytes, low byte first, in hexadecimal.
pub fn parse_asset_id_pub(text: &str) -> (id: Option<AssetId>)
    ensures
        id == chain::asset_id_of(text@),
{
    chain::parse_asset_id(text)
}

/// Converts an indexer record into a spendable output. Only valid for outputs on the player's own
/// default contract.
pub fn vtxo_input(record: &VtxoRecord, vtxo: &PlayerVtxo) -> (input: Option<OffchainInput>)
    ensures
        input matches Some(input) && input@ == spend_of(vtxo@, record@),
{
    let assets: Vec<(AssetId, u64)> = parse_assets(&record.assets);
    address::spend_output(vtxo, record.outpoint, record.amount_sats, &assets)
}

fn vtxo_inputs(records: &[VtxoRecord], vtxo: &PlayerVtxo) -> (inputs: Option<Vec<OffchainInput>>)
    ensures
        inputs matches Some(inputs) && inputs_view(inputs@) == spends_of(
            vtxo@,
            arkade::records_view(records@),
        ),
{
    let ghost all = spends_of(vtxo@, arkade::records_view(records@));
    let mut inputs: Vec<OffchainInput> = Vec::new();
    let mut i: usize = 0;
    assert(inputs_view(inputs@) =~= all.take(0));
    while i < records.len()
        invariant
            i <= records@.len(),
            all == spends_of(vtxo@, arkade::records_view(records@)),
            inputs_view(inputs@) == all.take(i as int),
        decreases records@.len() - i,
    {
        let ghost was = inputs_view(inputs@);
        match vtxo_input(&records[i], vtxo) {
            Some(input) => {
                let ghost spend = input@;
                inputs.push(input);
                proof {
                    assert(inputs_view(inputs@) =~= was.push(spend));
                    assert(all[i as int] == spend);
                    assert(all.take(i + 1) =~= all.take(i as int).push(all[i as int]));
                }
            },
            None => {
                return None;
            },
        }
        i += 1;
    }
    assert(all.take(all.len() as int) =~= all);
    Some(inputs)
}

/// A plain OP_RETURN output: `OP_RETURN <payload>`, worth nothing. It carries game data, and reads
/// back as the payload unless that starts like an extension.
pub open spec fn data_output(payload: Seq<u8>) -> Output {
    Output { value: 0, script: script::op_return_bytes(payload) }
}

/// Builds a plain OP_RETURN output. Nothing where the payload has 2^32 bytes or more.
pub fn op_return_txout(payload: &[u8]) -> (output: Option<TxOut>)
    ensures
        match output {
            Some(output) => {
                &&& payload@.len() < 0x1_0000_0000
                &&& output@ == data_output(payload@)
                &&& gamelog::payload_of(output@) == if script::has_extension_magic(payload@) {
                    None
                } else {
                    Some(payload@)
                }
            },
            None => payload@.len() >= 0x1_0000_0000,
        },
{
    match script::op_return_script(payload) {
        Some(script_pubkey) => {
            let output: TxOut = TxOut { value: 0, script_pubkey };
            assert(output@ =~= data_output(payload@));
            Some(output)
        },
        None => None,
    }
}

/// A PSBT with a data output before the anchor, its last output. A payload of 2^32 bytes or more is
/// refused.
pub open spec fn attached(psbt: Signed, payload: Seq<u8>) -> Result<Signed, Fault> {
    if payload.len() >= 0x1_0000_0000 {
        Err(Fault::Payload)
    } else {
        Ok(psbt::with_output(psbt, data_output(payload)))
    }
}

pub open spec fn fault_view<T>(result: Result<T, TxError>) -> Option<Fault> {
    match result {
        Ok(_) => None,
        Err(error) => Some(error@),
    }
}

/// Inserts a plain OP_RETURN output before the anchor (last) output. It fails only where the payload
/// has 2^32 bytes or more, and then changes nothing.
pub fn attach_op_return(ark_tx: &mut Psbt, payload: &[u8]) -> (result: Result<(), TxError>)
    requires
        old(ark_tx)@.tx.output.len() > 0,
    ensures
        match attached(old(ark_tx)@, payload@) {
            Ok(psbt) => result is Ok && final(ark_tx)@ == psbt,
            Err(fault) => fault_view(result) == Some(fault) && *final(ark_tx) == *old(ark_tx),
        },
        result is Ok <==> payload@.len() < 0x1_0000_0000,
        result is Ok ==> final(ark_tx)@.tx == psbt::tx_with_output(
            old(ark_tx)@.tx,
            data_output(payload@),
        ),
        result is Ok && !script::has_extension_magic(payload@) ==> gamelog::payload_of(
            data_output(payload@),
        ) == Some(payload@),
{
    match op_return_txout(payload) {
        Some(output) => {
            ark_tx.insert_before_last(output);
            Ok(())
        },
        None => Err(TxError::Payload),
    }
}

/// The data of a transaction that got a data output before its last one: its own data before, the
/// payload, and the data of the last output.
pub proof fn law_attached_data_is_read(tx: crate::chain::Tx, payload: Seq<u8>)
    requires
        tx.output.len() > 0,
        gamelog::payload_of(data_output(payload)) == Some(payload),
    ensures
        gamelog::payloads_of(psbt::tx_with_output(tx, data_output(payload)).output)
            == gamelog::payloads_of(tx.output.drop_last()) + seq![payload] + gamelog::payloads_of(
            seq![tx.output.last()],
        ),
{
    let f = |o: Output| gamelog::payload_of(o);
    let n = tx.output.len() - 1;
    let all = psbt::tx_with_output(tx, data_output(payload)).output;
    let before = tx.output.drop_last();
    let last = seq![tx.output.last()];
    assert(all.take(n) =~= before);
    assert(all.take(all.len() as int) =~= all);
    assert(all[n] == data_output(payload));
    assert(all[n + 1] == tx.output.last());
    all.lemma_filter_map_take_succ(f, n);
    all.lemma_filter_map_take_succ(f, n + 1);
    last.lemma_filter_map_take_succ(f, 0);
    assert(last.take(0) =~= Seq::empty());
    assert(last.take(1) =~= last);
    assert(last.take(0).filter_map(f) =~= Seq::<Seq<u8>>::empty());
    assert(gamelog::payloads_of(all) =~= gamelog::payloads_of(before) + seq![payload]
        + gamelog::payloads_of(last));
}

/// The sum of what is spent.
pub open spec fn total_spent(spends: Seq<Spend>) -> nat
    decreases spends.len(),
{
    if spends.len() == 0 {
        0
    } else {
        total_spent(spends.drop_last()) + spends.last().amount as nat
    }
}

/// The units of an asset among some assets.
pub open spec fn units_among(assets: Seq<(AssetId, u64)>, id: AssetId) -> nat
    decreases assets.len(),
{
    if assets.len() == 0 {
        0
    } else {
        units_among(assets.drop_last(), id) + if assets.last().0 == id {
            assets.last().1 as nat
        } else {
            0
        }
    }
}

/// The units of an asset in all that is spent.
pub open spec fn units_spent(spends: Seq<Spend>, id: AssetId) -> nat
    decreases spends.len(),
{
    if spends.len() == 0 {
        0
    } else {
        units_spent(spends.drop_last(), id) + units_among(spends.last().assets, id)
    }
}

/// The sum of what receivers get.
pub open spec fn total_paid(receivers: Seq<(Seq<char>, u64)>) -> nat
    decreases receivers.len(),
{
    if receivers.len() == 0 {
        0
    } else {
        total_paid(receivers.drop_last()) + receivers.last().1 as nat
    }
}

/// A payment to receivers, each an address and an amount, as
/// `ark_core::send::build_offchain_transactions` builds it: the transaction and its checkpoints, or
/// the text of the error. A receiver that is not an Arkade address is an error too.
pub uninterp spec fn offchain_payment(
    receivers: Seq<(Seq<char>, u64)>,
    change: Seq<char>,
    spends: Seq<Spend>,
    setup: Setup,
) -> Result<(Signed, Seq<Signed>), Seq<char>>;

/// The type of what the builders of `ark_core` give.
#[verifier::external_type_specification]
#[verifier::external_body]
pub struct ExOffchainTransactions(OffchainTransactions);

/// A transaction and its checkpoints as a builder gave them.
pub struct Built {
    inner: OffchainTransactions,
    held: Ghost<(Signed, Seq<Signed>)>,
}

impl View for Built {
    type V = (Signed, Seq<Signed>);

    closed spec fn view(&self) -> (Signed, Seq<Signed>) {
        self.held@
    }
}

/// The fields of an `ark_core::send::OffchainTransactions`.
#[verifier::external_body]
fn take_apart(built: Built) -> (txs: (PsbtData, Vec<PsbtData>))
    ensures
        txs.0@ == built@.0,
        psbt::data_view(txs.1@) == built@.1,
{
    let hold = |inner| PsbtData { inner, held: Ghost(arbitrary()) };
    let txs = built.inner;
    (hold(txs.ark_tx), txs.checkpoint_txs.into_iter().map(hold).collect())
}

pub open spec fn built_view(result: Result<Built, String>) -> Result<
    (Signed, Seq<Signed>),
    Seq<char>,
> {
    match result {
        Ok(built) => Ok(built@),
        Err(error) => Err(error@),
    }
}

/// `ark_core::send::build_offchain_transactions` with receivers of no assets. It adds up the amounts
/// of the inputs and those of the receivers, which have to fit. The transaction ends with an anchor
/// output; what else it builds is left to `offchain_payment`.
#[verifier::external_body]
fn build_payment(
    receivers: &[(String, u64)],
    change: &str,
    inputs: &[OffchainInput],
    info: &OperatorInfo,
) -> (built: Result<Built, String>)
    requires
        total_spent(inputs_view(inputs@)) <= u64::MAX,
        total_paid(arkade::amounts_view(receivers@)) <= u64::MAX,
    ensures
        built matches Ok(built) ==> built@.0.tx.output.len() > 0,
        built_view(built) == offchain_payment(
            arkade::amounts_view(receivers@),
            change@,
            inputs_view(inputs@),
            info@,
        ),
{
    let receive = |(to, sats): &(String, u64)| {
        ArkAddress::decode(to).map(|to| SendReceiver::bitcoin(to, Amount::from_sat(*sats)))
    };
    let build = || {
        let receivers = receivers.iter().map(receive).collect::<Result<Vec<_>, _>>()?;
        let inputs: Vec<_> = inputs.iter().map(|input| input.inner.clone()).collect();
        send::build_offchain_transactions(&receivers, &ArkAddress::decode(change)?, &inputs, &info.inner)
    };
    let inner = build().map_err(|e| e.to_string())?;
    Ok(Built { inner, held: Ghost(arbitrary()) })
}

/// The issuance of an asset to its issuer, as
/// `ark_core::send::build_self_asset_issuance_transactions` builds it without a control asset on a
/// machine whose words have `word_bits` bits: the transaction, its checkpoints and the issued assets,
/// or the text of the error.
pub uninterp spec fn offchain_issuance(
    own: Seq<char>,
    spends: Seq<Spend>,
    setup: Setup,
    amount: u64,
    metadata: Seq<(Seq<char>, Seq<char>)>,
    word_bits: u32,
) -> Result<(Signed, Seq<Signed>, Seq<AssetId>), Seq<char>>;

pub open spec fn issued_view(
    result: Result<(PsbtData, Vec<PsbtData>, Vec<AssetId>), String>,
) -> Result<(Signed, Seq<Signed>, Seq<AssetId>), Seq<char>> {
    match result {
        Ok((ark_tx, checkpoints, ids)) => Ok((ark_tx@, psbt::data_view(checkpoints@), ids@)),
        Err(error) => Err(error@),
    }
}

/// `ark_core::send::build_self_asset_issuance_transactions` without a control asset, with change
/// to the issuer. It adds up the amounts of the inputs, which have to fit. What it builds is left
/// to `offchain_issuance`.
#[verifier::external_body]
fn build_issuance(
    own: &str,
    inputs: &[OffchainInput],
    info: &OperatorInfo,
    amount: u64,
    metadata: Vec<(String, String)>,
) -> (built: Result<(PsbtData, Vec<PsbtData>, Vec<AssetId>), String>)
    requires
        total_spent(inputs_view(inputs@)) <= u64::MAX,
    ensures
        issued_view(built) == offchain_issuance(
            own@,
            inputs_view(inputs@),
            info@,
            amount,
            gamelog::pairs_view(metadata@),
            usize::BITS,
        ),
{
    let own = ArkAddress::decode(own).map_err(|e| e.to_string())?;
    let inputs: Vec<_> = inputs.iter().map(|input| input.inner.clone()).collect();
    let txs = send::build_self_asset_issuance_transactions(&own, &own, &inputs, &info.inner, amount, None, Some(metadata))
        .map_err(|e| e.to_string())?;
    let hold = |inner| PsbtData { inner, held: Ghost(arbitrary()) };
    let checkpoints = txs.checkpoint_txs.into_iter().map(hold).collect();
    let ids = txs.asset_ids.iter().map(|a| AssetId { txid: Txid { bytes: *a.txid.as_ref() }, group_index: a.group_index });
    Ok((hold(txs.ark_tx), checkpoints, ids.collect()))
}

/// The burn of some units of an asset, as `ark_core::send::build_asset_burn_transactions` builds it
/// on a machine whose words have `word_bits` bits: the transaction and its checkpoints, or the text
/// of the error.
pub uninterp spec fn offchain_burn(
    own: Seq<char>,
    spends: Seq<Spend>,
    setup: Setup,
    asset: AssetId,
    amount: u64,
    word_bits: u32,
) -> Result<(Signed, Seq<Signed>), Seq<char>>;

/// `ark_core::send::build_asset_burn_transactions` with change to the owner. It adds up the amounts
/// of the inputs and the units of each asset, which have to fit. The transaction ends with an anchor
/// output; what else it builds is left to `offchain_burn`.
#[verifier::external_body]
fn build_burn(
    own: &str,
    inputs: &[OffchainInput],
    info: &OperatorInfo,
    asset: AssetId,
    amount: u64,
) -> (built: Result<Built, String>)
    requires
        total_spent(inputs_view(inputs@)) <= u64::MAX,
        forall|id: AssetId| #[trigger] units_spent(inputs_view(inputs@), id) <= u64::MAX,
    ensures
        built matches Ok(built) ==> built@.0.tx.output.len() > 0,
        built_view(built) == offchain_burn(
            own@,
            inputs_view(inputs@),
            info@,
            asset,
            amount,
            usize::BITS,
        ),
{
    let own = ArkAddress::decode(own).map_err(|e| e.to_string())?;
    let inputs: Vec<_> = inputs.iter().map(|input| input.inner.clone()).collect();
    let txid = bitcoin::hashes::Hash::from_byte_array(asset.txid.bytes);
    let asset = AssetKey { txid, group_index: asset.group_index };
    let inner = send::build_asset_burn_transactions(&own, &own, &inputs, &info.inner, asset, amount)
        .map_err(|e| e.to_string())?;
    Ok(Built { inner, held: Ghost(arbitrary()) })
}

/// What a builder gave, with its error as a fault.
pub open spec fn built_txs(built: Result<(Signed, Seq<Signed>), Seq<char>>) -> Result<
    (Signed, Seq<Signed>),
    Fault,
> {
    match built {
        Ok(txs) => Ok(txs),
        Err(error) => Err(Fault::Builder(error)),
    }
}

pub open spec fn txs_view(result: Result<(Psbt, Vec<Psbt>), TxError>) -> Result<
    (Signed, Seq<Signed>),
    Fault,
> {
    match result {
        Ok((ark_tx, checkpoints)) => Ok((ark_tx@, psbt::psbts_view(checkpoints@))),
        Err(error) => Err(error@),
    }
}

fn hold_txs(built: Result<Built, String>) -> (txs: Result<
    (Psbt, Vec<Psbt>),
    TxError,
>)
    ensures
        txs_view(txs) == built_txs(built_view(built)),
{
    match built {
        Ok(built) => {
            let (ark_tx, checkpoints): (PsbtData, Vec<PsbtData>) = take_apart(built);
            Ok((Psbt::of(ark_tx), psbt::psbts_from(checkpoints)))
        },
        Err(error) => Err(TxError::Builder(error)),
    }
}

/// Built transactions with a data output attached to the first.
pub open spec fn with_data(txs: Result<(Signed, Seq<Signed>), Fault>, payload: Seq<u8>) -> Result<
    (Signed, Seq<Signed>),
    Fault,
> {
    match txs {
        Err(fault) => Err(fault),
        Ok((ark_tx, checkpoints)) => match attached(ark_tx, payload) {
            Ok(ark_tx) => Ok((ark_tx, checkpoints)),
            Err(fault) => Err(fault),
        },
    }
}

fn attach_data(txs: Result<(Psbt, Vec<Psbt>), TxError>, payload: &[u8]) -> (result: Result<
    (Psbt, Vec<Psbt>),
    TxError,
>)
    requires
        txs matches Ok(txs) ==> txs.0@.tx.output.len() > 0,
    ensures
        txs_view(result) == with_data(txs_view(txs), payload@),
{
    match txs {
        Err(error) => Err(error),
        Ok((ark_tx, checkpoints)) => {
            let mut ark_tx: Psbt = ark_tx;
            match attach_op_return(&mut ark_tx, payload) {
                Ok(_) => Ok((ark_tx, checkpoints)),
                Err(error) => Err(error),
            }
        },
    }
}

/// The amount to send: where change would be left that is worth more than nothing but less than
/// dust, everything.
pub open spec fn folded_amount(total: int, amount: u64, dust: u64) -> int {
    if 0 < total - amount < dust {
        total
    } else {
        amount as int
    }
}

/// Change that is neither nothing nor at least dust is never left.
pub proof fn law_no_dust_change_is_left(total: u64, amount: u64, dust: u64)
    requires
        amount <= total,
    ensures
        total - folded_amount(total as int, amount, dust) == 0 || total - folded_amount(
            total as int,
            amount,
            dust,
        ) >= dust,
        folded_amount(total as int, amount, dust) >= amount,
{
}

fn fold_change(total: u64, amount: u64, dust: u64) -> (folded: u64)
    ensures
        folded == folded_amount(total as int, amount, dust),
{
    match total.checked_sub(amount) {
        Some(change) => if change > 0 && change < dust {
            total
        } else {
            amount
        },
        None => amount,
    }
}

proof fn lemma_total_spent(terms: Terms, records: Seq<Record>)
    ensures
        total_spent(spends_of(terms, records)) == crate::match_::total_sats(records),
    decreases records.len(),
{
    let spends = spends_of(terms, records);
    if records.len() > 0 {
        lemma_total_spent(terms, records.drop_last());
        assert(spends.drop_last() =~= spends_of(terms, records.drop_last()));
    }
}

/// A payment from some outputs of the player to a receiver, with change to the player.
pub open spec fn payment_tx(
    owner: Seq<u8>,
    params: Params,
    info: Setup,
    records: Seq<Record>,
    receiver: Seq<char>,
    amount: u64,
) -> Result<(Signed, Seq<Signed>), Fault> {
    let terms = terms_of(owner, params);
    if !address::vtxo_exists(terms) {
        Err(Fault::Contract)
    } else {
        built_txs(
            offchain_payment(
                seq![
                    (
                        receiver,
                        folded_amount(
                            crate::match_::total_sats(records) as int,
                            amount,
                            params.dust_sats,
                        ) as u64,
                    ),
                ],
                address::vtxo_address(terms),
                spends_of(terms, records),
                info,
            ),
        )
    }
}

/// A transaction of the player to itself that carries data: it sends dust and leaves the rest as
/// change, or sends everything where the change would be below dust.
pub open spec fn event_tx(
    owner: Seq<u8>,
    params: Params,
    info: Setup,
    input: Record,
    payload: Seq<u8>,
) -> Result<(Signed, Seq<Signed>), Fault> {
    with_data(
        payment_tx(
            owner,
            params,
            info,
            seq![input],
            address::vtxo_address(terms_of(owner, params)),
            params.dust_sats,
        ),
        payload,
    )
}

/// Plain value send with no OP_RETURN. If the change would be a non-zero amount below dust, it is
/// folded into the recipient's output.
pub fn build_send_tx(
    owner: &[u8; 32],
    params: &ServerParams,
    info: &OperatorInfo,
    inputs: &[VtxoRecord],
    recipient: &str,
    amount_sats: u64,
) -> (txs: Result<(Psbt, Vec<Psbt>), TxError>)
    requires
        crate::match_::total_sats(arkade::records_view(inputs@)) <= u64::MAX,
    ensures
        txs matches Ok(txs) ==> txs.0@.tx.output.len() > 0,
        txs_view(txs) == payment_tx(
            owner@,
            params@,
            info@,
            arkade::records_view(inputs@),
            recipient@,
            amount_sats,
        ),
{
    let vtxo: PlayerVtxo = match address::player_vtxo(owner, params) {
        Some(vtxo) => vtxo,
        None => {
            return Err(TxError::Contract);
        },
    };
    let own: String = address::encoded_address(&vtxo);
    let spends: Vec<OffchainInput> = match vtxo_inputs(inputs, &vtxo) {
        Some(spends) => spends,
        None => {
            return Err(TxError::Contract);
        },
    };
    let total: u64 = match crate::match_::total_amount(inputs) {
        Some(total) => total,
        None => 0,
    };
    proof {
        lemma_total_spent(vtxo@, arkade::records_view(inputs@));
    }
    let amount: u64 = fold_change(total, amount_sats, params.dust_sats);
    let mut receivers: Vec<(String, u64)> = Vec::new();
    receivers.push((recipient.to_owned(), amount));
    proof {
        let paid = arkade::amounts_view(receivers@);
        assert(paid =~= seq![(recipient@, amount)]);
        assert(paid.drop_last() =~= Seq::empty());
        assert(total_paid(paid) == amount) by {
            reveal_with_fuel(total_paid, 2);
        }
    }
    hold_txs(build_payment(&receivers, own.as_str(), &spends, info))
}

/// Sends `amount_sats` to `recipient` with an OP_RETURN payload. If the change would be a non-zero
/// amount below dust, it is folded into the recipient output (a few extra sats to the recipient are
/// cheaper than an invalid transaction).
pub fn build_message_tx(
    owner: &[u8; 32],
    params: &ServerParams,
    info: &OperatorInfo,
    inputs: &[VtxoRecord],
    recipient: &str,
    amount_sats: u64,
    payload: &[u8],
) -> (txs: Result<(Psbt, Vec<Psbt>), TxError>)
    requires
        crate::match_::total_sats(arkade::records_view(inputs@)) <= u64::MAX,
    ensures
        txs_view(txs) == with_data(
            payment_tx(
                owner@,
                params@,
                info@,
                arkade::records_view(inputs@),
                recipient@,
                amount_sats,
            ),
            payload@,
        ),
{
    let txs: Result<(Psbt, Vec<Psbt>), TxError> = build_send_tx(
        owner,
        params,
        info,
        inputs,
        recipient,
        amount_sats,
    );
    attach_data(txs, payload)
}

/// A chained self-send carrying a plain OP_RETURN payload.
///
/// Sends `dust` back to the player and lets change continue the chain; when the change would be a
/// non-zero amount below dust, which the operator refuses, the whole input is folded into the self
/// output instead.
pub fn build_event_tx(
    owner: &[u8; 32],
    params: &ServerParams,
    info: &OperatorInfo,
    input: &VtxoRecord,
    payload: &[u8],
) -> (txs: Result<(Psbt, Vec<Psbt>), TxError>)
    ensures
        txs_view(txs) == event_tx(owner@, params@, info@, input@, payload@),
{
    let vtxo: PlayerVtxo = match address::player_vtxo(owner, params) {
        Some(vtxo) => vtxo,
        None => {
            return Err(TxError::Contract);
        },
    };
    let own: String = address::encoded_address(&vtxo);
    let mut inputs: Vec<VtxoRecord> = Vec::new();
    inputs.push(input.clone());
    proof {
        let all = arkade::records_view(inputs@);
        assert(all =~= seq![input@]);
        assert(all.drop_last() =~= Seq::empty());
        assert(crate::match_::total_sats(all) == input@.amount_sats) by {
            reveal_with_fuel(crate::match_::total_sats, 2);
        }
    }
    build_message_tx(owner, params, info, &inputs, own.as_str(), params.dust_sats, payload)
}

/// The issuance of a fresh asset by the player to itself.
pub open spec fn issue_tx(
    owner: Seq<u8>,
    params: Params,
    info: Setup,
    input: Record,
    amount: u64,
    metadata: Seq<(Seq<char>, Seq<char>)>,
) -> Result<(Signed, Seq<Signed>, AssetId), Fault> {
    let terms = terms_of(owner, params);
    if !address::vtxo_exists(terms) {
        Err(Fault::Contract)
    } else {
        match offchain_issuance(
            address::vtxo_address(terms),
            seq![spend_of(terms, input)],
            info,
            amount,
            metadata,
            usize::BITS,
        ) {
            Err(error) => Err(Fault::Builder(error)),
            Ok((ark_tx, checkpoints, ids)) => if ids.len() == 0 {
                Err(Fault::NoAsset)
            } else {
                Ok((ark_tx, checkpoints, ids[0]))
            },
        }
    }
}

pub open spec fn issue_view(result: Result<(Psbt, Vec<Psbt>, AssetId), TxError>) -> Result<
    (Signed, Seq<Signed>, AssetId),
    Fault,
> {
    match result {
        Ok((ark_tx, checkpoints, id)) => Ok((ark_tx@, psbt::psbts_view(checkpoints@), id)),
        Err(error) => Err(error@),
    }
}

/// Self-issues `amount` units of a fresh asset. Gives the derived asset with the transactions.
pub fn build_issue_tx(
    owner: &[u8; 32],
    params: &ServerParams,
    info: &OperatorInfo,
    input: &VtxoRecord,
    amount: u64,
    metadata: Vec<(String, String)>,
) -> (txs: Result<(Psbt, Vec<Psbt>, AssetId), TxError>)
    ensures
        issue_view(txs) == issue_tx(
            owner@,
            params@,
            info@,
            input@,
            amount,
            gamelog::pairs_view(metadata@),
        ),
{
    let vtxo: PlayerVtxo = match address::player_vtxo(owner, params) {
        Some(vtxo) => vtxo,
        None => {
            return Err(TxError::Contract);
        },
    };
    let own: String = address::encoded_address(&vtxo);
    let spend: OffchainInput = match vtxo_input(input, &vtxo) {
        Some(spend) => spend,
        None => {
            return Err(TxError::Contract);
        },
    };
    let mut spends: Vec<OffchainInput> = Vec::new();
    let ghost only = spend@;
    spends.push(spend);
    proof {
        let all = inputs_view(spends@);
        assert(all =~= seq![only]);
        assert(all.drop_last() =~= Seq::empty());
        assert(total_spent(all) == only.amount) by {
            reveal_with_fuel(total_spent, 2);
        }
    }
    match build_issuance(own.as_str(), &spends, info, amount, metadata) {
        Err(error) => Err(TxError::Builder(error)),
        Ok((ark_tx, checkpoints, ids)) => if ids.len() == 0 {
            Err(TxError::NoAsset)
        } else {
            Ok((Psbt::of(ark_tx), psbt::psbts_from(checkpoints), ids[0]))
        },
    }
}

/// The burn of units of the player, with a data output.
pub open spec fn burn_tx(
    owner: Seq<u8>,
    params: Params,
    info: Setup,
    records: Seq<Record>,
    asset: AssetId,
    amount: u64,
    payload: Seq<u8>,
) -> Result<(Signed, Seq<Signed>), Fault> {
    let terms = terms_of(owner, params);
    if !address::vtxo_exists(terms) {
        Err(Fault::Contract)
    } else {
        with_data(
            built_txs(
                offchain_burn(
                    address::vtxo_address(terms),
                    spends_of(terms, records),
                    info,
                    asset,
                    amount,
                    usize::BITS,
                ),
            ),
            payload,
        )
    }
}

/// Burns `amount` of `asset_id` with an OP_RETURN header.
pub fn build_burn_tx(
    owner: &[u8; 32],
    params: &ServerParams,
    info: &OperatorInfo,
    inputs: &[VtxoRecord],
    asset_id: AssetId,
    amount: u64,
    payload: &[u8],
) -> (txs: Result<(Psbt, Vec<Psbt>), TxError>)
    requires
        crate::match_::total_sats(arkade::records_view(inputs@)) <= u64::MAX,
        forall|id: AssetId| #[trigger]
            units_spent(
                spends_of(terms_of(owner@, params@), arkade::records_view(inputs@)),
                id,
            ) <= u64::MAX,
    ensures
        txs_view(txs) == burn_tx(
            owner@,
            params@,
            info@,
            arkade::records_view(inputs@),
            asset_id,
            amount,
            payload@,
        ),
{
    let vtxo: PlayerVtxo = match address::player_vtxo(owner, params) {
        Some(vtxo) => vtxo,
        None => {
            return Err(TxError::Contract);
        },
    };
    let own: String = address::encoded_address(&vtxo);
    let spends: Vec<OffchainInput> = match vtxo_inputs(inputs, &vtxo) {
        Some(spends) => spends,
        None => {
            return Err(TxError::Contract);
        },
    };
    proof {
        lemma_total_spent(vtxo@, arkade::records_view(inputs@));
    }
    let txs: Result<(Psbt, Vec<Psbt>), TxError> = hold_txs(
        build_burn(own.as_str(), &spends, info, asset_id, amount),
    );
    attach_data(txs, payload)
}

/// A PSBT with an asset packet of some groups, as
/// `ark_core::asset::packet::add_asset_packet_to_psbt` attaches it on a machine whose words have
/// `word_bits` bits, or the text of the error.
pub uninterp spec fn psbt_with_packet(psbt: Signed, groups: Seq<Group>, word_bits: u32) -> Result<
    Signed,
    Seq<char>,
>;

/// Whether a group issues an asset that nothing controls, from nothing.
pub open spec fn is_fresh(group: Group) -> bool {
    group.asset_id is None && !group.has_control_asset && group.inputs.len() == 0
}

/// `ark_core::asset::packet::add_asset_packet_to_psbt` with groups that issue assets. What it
/// attaches is left to `psbt_with_packet`.
#[verifier::external_body]
fn attach_packet(data: PsbtData, groups: Vec<AssetPacketGroup>) -> (attached: Result<
    PsbtData,
    String,
>)
    requires
        forall|i: int| 0 <= i < groups@.len() ==> is_fresh(#[trigger] groups@[i]@),
    ensures
        match attached {
            Ok(attached) => psbt_with_packet(data@, gamelog::groups_view(groups@), usize::BITS)
                == Ok::<Signed, Seq<char>>(attached@),
            Err(error) => psbt_with_packet(data@, gamelog::groups_view(groups@), usize::BITS)
                == Err::<Signed, Seq<char>>(error@),
        },
{
    let mut inner = data.inner;
    let output = |o: AssetAssignment| AssetOutput { output_index: o.index, amount: o.amount };
    let groups = groups.into_iter().map(|g| AssetGroup {
        asset_id: None,
        control_asset: None,
        metadata: g.metadata,
        inputs: vec![],
        outputs: g.outputs.into_iter().map(output).collect(),
    });
    let packet = Packet { groups: groups.collect() };
    add_asset_packet_to_psbt(&mut inner, &packet).map_err(|e| e.to_string())?;
    Ok(PsbtData { inner, held: Ghost(arbitrary()) })
}

/// The group of a registration for a direction: its whole supply in the player's output.
pub open spec fn pack_group(direction: int) -> Group {
    Group {
        asset_id: None,
        has_control_asset: false,
        metadata: Some(gamelog::move_metadata(direction)),
        inputs: Seq::empty(),
        outputs: seq![
            AssetAssignment {
                index: gamelog::PLAYER_ASSET_OUTPUT_INDEX,
                amount: gamelog::MOVE_SUPPLY,
            },
        ],
    }
}

/// The groups of a registration, one for each direction.
pub open spec fn pack_groups() -> Seq<Group> {
    Seq::new(4, |direction: int| pack_group(direction))
}

/// A transaction whose asset packet has the groups of a registration is a canonical issuance.
pub proof fn law_packs_are_canonical(outputs: Seq<Output>)
    requires
        gamelog::asset_packet_of(outputs) == Some(pack_groups()),
    ensures
        gamelog::issues_moves(outputs),
{
}

fn new_pack_group(direction: usize) -> (group: AssetPacketGroup)
    requires
        direction < 4,
    ensures
        group@ == pack_group(direction as int),
{
    let mut metadata: Vec<(String, String)> = Vec::new();
    metadata.push(("game".to_owned(), gamelog::GAME_ID.to_owned()));
    metadata.push(("move".to_owned(), gamelog::DIRECTIONS[direction].to_owned()));
    let mut outputs: Vec<AssetAssignment> = Vec::new();
    outputs.push(
        AssetAssignment {
            index: gamelog::PLAYER_ASSET_OUTPUT_INDEX,
            amount: gamelog::MOVE_SUPPLY,
        },
    );
    assert(gamelog::pairs_view(metadata@) =~= gamelog::move_metadata(direction as int));
    let group: AssetPacketGroup = AssetPacketGroup {
        asset_id: None,
        has_control_asset: false,
        metadata: Some(metadata),
        inputs: Vec::new(),
        outputs,
    };
    assert(group@ =~= pack_group(direction as int));
    group
}

fn new_pack_groups() -> (groups: Vec<AssetPacketGroup>)
    ensures
        gamelog::groups_view(groups@) == pack_groups(),
{
    let mut groups: Vec<AssetPacketGroup> = Vec::new();
    let mut direction: usize = 0;
    while direction < 4
        invariant
            direction <= 4,
            gamelog::groups_view(groups@) == pack_groups().take(direction as int),
        decreases 4 - direction,
    {
        let ghost was = gamelog::groups_view(groups@);
        groups.push(new_pack_group(direction));
        proof {
            assert(gamelog::groups_view(groups@) =~= was.push(pack_group(direction as int)));
            assert(pack_groups().take(direction + 1) =~= pack_groups().take(direction as int).push(
                pack_group(direction as int),
            ));
        }
        direction += 1;
    }
    assert(pack_groups().take(4) =~= pack_groups());
    groups
}

/// The registration of the player: dust to the game, and dust with a pack of assets to itself.
pub open spec fn registration_tx(
    owner: Seq<u8>,
    params: Params,
    info: Setup,
    records: Seq<Record>,
    game: Seq<char>,
) -> Result<(Signed, Seq<Signed>), Fault> {
    let terms = terms_of(owner, params);
    let own = address::vtxo_address(terms);
    if !address::vtxo_exists(terms) {
        Err(Fault::Contract)
    } else {
        match offchain_payment(
            seq![(game, params.dust_sats), (own, params.dust_sats)],
            own,
            spends_of(terms, records),
            info,
        ) {
            Err(error) => Err(Fault::Builder(error)),
            Ok((ark_tx, checkpoints)) => match psbt_with_packet(
                ark_tx,
                pack_groups(),
                usize::BITS,
            ) {
                Err(error) => Err(Fault::Builder(error)),
                Ok(ark_tx) => Ok((ark_tx, checkpoints)),
            },
        }
    }
}

/// Registers the player: pays dust to the game address, and issues the player a pack of move assets
/// in the second output.
pub fn build_move_asset_issuance_tx(
    owner: &[u8; 32],
    params: &ServerParams,
    info: &OperatorInfo,
    game: &str,
    inputs: &[VtxoRecord],
) -> (txs: Result<(Psbt, Vec<Psbt>), TxError>)
    requires
        crate::match_::total_sats(arkade::records_view(inputs@)) <= u64::MAX,
        2 * params@.dust_sats <= u64::MAX,
    ensures
        txs_view(txs) == registration_tx(
            owner@,
            params@,
            info@,
            arkade::records_view(inputs@),
            game@,
        ),
{
    let vtxo: PlayerVtxo = match address::player_vtxo(owner, params) {
        Some(vtxo) => vtxo,
        None => {
            return Err(TxError::Contract);
        },
    };
    let own: String = address::encoded_address(&vtxo);
    let spends: Vec<OffchainInput> = match vtxo_inputs(inputs, &vtxo) {
        Some(spends) => spends,
        None => {
            return Err(TxError::Contract);
        },
    };
    let mut receivers: Vec<(String, u64)> = Vec::new();
    receivers.push((game.to_owned(), params.dust_sats));
    receivers.push((own.clone(), params.dust_sats));
    proof {
        lemma_total_spent(vtxo@, arkade::records_view(inputs@));
        let paid = arkade::amounts_view(receivers@);
        assert(paid =~= seq![(game@, params.dust_sats), (own@, params.dust_sats)]);
        assert(paid.drop_last() =~= seq![(game@, params.dust_sats)]);
        assert(paid.drop_last().drop_last() =~= Seq::empty());
        assert(total_paid(paid) == 2 * params.dust_sats) by {
            reveal_with_fuel(total_paid, 3);
        }
    }
    let (ark_tx, checkpoints): (PsbtData, Vec<PsbtData>) = match build_payment(
        &receivers,
        own.as_str(),
        &spends,
        info,
    ) {
        Ok(built) => take_apart(built),
        Err(error) => {
            return Err(TxError::Builder(error));
        },
    };
    let groups: Vec<AssetPacketGroup> = new_pack_groups();
    assert(groups@.len() == pack_groups().len());
    assert forall|i: int| 0 <= i < groups@.len() implies is_fresh(#[trigger] groups@[i]@) by {
        assert(gamelog::groups_view(groups@)[i] == groups@[i]@);
        assert(pack_groups()[i] == pack_group(i));
    }
    match attach_packet(ark_tx, groups) {
        Ok(ark_tx) => Ok((Psbt::of(ark_tx), psbt::psbts_from(checkpoints))),
        Err(error) => Err(TxError::Builder(error)),
    }
}

/// Where an asset stands in a list; of several places the last.
pub open spec fn asset_place(assets: Seq<(AssetId, u64)>, id: AssetId) -> Option<int>
    decreases assets.len(),
{
    if assets.len() == 0 {
        None
    } else if assets.last().0 == id {
        Some(assets.len() - 1)
    } else {
        asset_place(assets.drop_last(), id)
    }
}

/// A list of assets with some units more of one.
pub open spec fn with_units(assets: Seq<(AssetId, u64)>, more: (AssetId, u64)) -> Seq<
    (AssetId, u64),
> {
    match asset_place(assets, more.0) {
        Some(i) => assets.update(i, (more.0, (assets[i].1 + more.1) as u64)),
        None => assets.push(more),
    }
}

/// A list of assets with the units of others added.
pub open spec fn with_assets(assets: Seq<(AssetId, u64)>, more: Seq<(AssetId, u64)>) -> Seq<
    (AssetId, u64),
>
    decreases more.len(),
{
    if more.len() == 0 {
        assets
    } else {
        with_units(with_assets(assets, more.drop_last()), more.last())
    }
}

/// All assets of some outputs, each with its units in all of them.
pub open spec fn gathered(records: Seq<Record>) -> Seq<(AssetId, u64)>
    decreases records.len(),
{
    if records.len() == 0 {
        Seq::empty()
    } else {
        with_assets(gathered(records.drop_last()), valid_assets(records.last().assets))
    }
}

fn find_asset(assets: &[(AssetId, u64)], id: AssetId) -> (found: Option<usize>)
    ensures
        match found {
            Some(i) => asset_place(assets@, id) == Some(i as int) && i < assets@.len()
                && assets@[i as int].0 == id,
            None => asset_place(assets@, id) is None,
        },
{
    let mut i: usize = assets.len();
    assert(assets@.take(i as int) =~= assets@);
    while i > 0
        invariant
            i <= assets@.len(),
            asset_place(assets@, id) == asset_place(assets@.take(i as int), id),
        decreases i,
    {
        proof {
            assert(assets@.take(i as int).drop_last() =~= assets@.take(i - 1));
            assert(assets@.take(i as int).last() == assets@[i - 1]);
        }
        if assets[i - 1].0 == id {
            return Some(i - 1);
        }
        i -= 1;
    }
    None
}

proof fn lemma_asset_place(assets: Seq<(AssetId, u64)>, id: AssetId)
    ensures
        match asset_place(assets, id) {
            Some(i) => 0 <= i < assets.len() && assets[i].0 == id && assets[i].1 <= units_among(
                assets,
                id,
            ),
            None => units_among(assets, id) == 0 && forall|i: int|
                0 <= i < assets.len() ==> (#[trigger] assets[i]).0 != id,
        },
    decreases assets.len(),
{
    if assets.len() > 0 {
        lemma_asset_place(assets.drop_last(), id);
        if asset_place(assets, id) is None {
            assert forall|i: int| 0 <= i < assets.len() implies (#[trigger] assets[i]).0 != id by {
                if i < assets.len() - 1 {
                    assert(assets.drop_last()[i] == assets[i]);
                }
            }
        }
    }
}

proof fn lemma_units_updated(assets: Seq<(AssetId, u64)>, i: int, units: u64, id: AssetId)
    requires
        0 <= i < assets.len(),
    ensures
        units_among(assets.update(i, (assets[i].0, units)), id) == units_among(assets, id) + if
            assets[i].0 == id {
            units - assets[i].1
        } else {
            0
        },
    decreases assets.len(),
{
    let updated = assets.update(i, (assets[i].0, units));
    if i == assets.len() - 1 {
        assert(updated.drop_last() =~= assets.drop_last());
    } else {
        assert(updated.drop_last() =~= assets.drop_last().update(i, (assets[i].0, units)));
        lemma_units_updated(assets.drop_last(), i, units, id);
    }
}

/// Whether no asset stands twice in a list.
pub open spec fn assets_distinct(assets: Seq<(AssetId, u64)>) -> bool {
    forall|i: int, j: int|
        0 <= i < j < assets.len() ==> (#[trigger] assets[i]).0 != (#[trigger] assets[j]).0
}

proof fn lemma_with_units(assets: Seq<(AssetId, u64)>, more: (AssetId, u64))
    requires
        assets_distinct(assets),
        units_among(assets, more.0) + more.1 <= u64::MAX,
    ensures
        assets_distinct(with_units(assets, more)),
        forall|id: AssetId| #[trigger]
            units_among(with_units(assets, more), id) == units_among(assets, id) + if more.0 == id {
                more.1 as nat
            } else {
                0
            },
{
    lemma_asset_place(assets, more.0);
    match asset_place(assets, more.0) {
        Some(i) => {
            let units = (assets[i].1 + more.1) as u64;
            assert forall|id: AssetId| #[trigger]
                units_among(with_units(assets, more), id) == units_among(assets, id) + if more.0
                    == id {
                    more.1 as nat
                } else {
                    0
                } by {
                lemma_units_updated(assets, i, units, id);
            }
        },
        None => {
            assert(assets.push(more).drop_last() =~= assets);
        },
    }
}

proof fn lemma_with_assets(assets: Seq<(AssetId, u64)>, more: Seq<(AssetId, u64)>)
    requires
        assets_distinct(assets),
        forall|id: AssetId|
            units_among(assets, id) + #[trigger] units_among(more, id) <= u64::MAX,
    ensures
        assets_distinct(with_assets(assets, more)),
        forall|id: AssetId| #[trigger]
            units_among(with_assets(assets, more), id) == units_among(assets, id) + units_among(
                more,
                id,
            ),
    decreases more.len(),
{
    if more.len() > 0 {
        assert forall|id: AssetId|
            units_among(assets, id) + #[trigger] units_among(more.drop_last(), id)
                <= u64::MAX by {
            assert(units_among(more, id) >= units_among(more.drop_last(), id));
        }
        lemma_with_assets(assets, more.drop_last());
        let id = more.last().0;
        assert(units_among(more, id) == units_among(more.drop_last(), id) + more.last().1);
        lemma_with_units(with_assets(assets, more.drop_last()), more.last());
        assert forall|id: AssetId| #[trigger]
            units_among(with_assets(assets, more), id) == units_among(assets, id) + units_among(
                more,
                id,
            ) by {
            assert(units_among(with_assets(assets, more.drop_last()), id) == units_among(
                assets,
                id,
            ) + units_among(more.drop_last(), id));
        }
    }
}

/// What is gathered of some outputs has every asset once, with all its units.
pub proof fn law_gathering_keeps_every_unit(terms: Terms, records: Seq<Record>)
    requires
        forall|id: AssetId| #[trigger]
            units_spent(spends_of(terms, records), id) <= u64::MAX,
    ensures
        assets_distinct(gathered(records)),
        forall|id: AssetId| #[trigger]
            units_among(gathered(records), id) == units_spent(spends_of(terms, records), id),
    decreases records.len(),
{
    let spends = spends_of(terms, records);
    if records.len() > 0 {
        let before = records.drop_last();
        let more = valid_assets(records.last().assets);
        assert(spends.drop_last() =~= spends_of(terms, before));
        assert(spends.last().assets == more);
        assert forall|id: AssetId| #[trigger] units_spent(spends_of(terms, before), id)
            <= u64::MAX by {
            assert(units_spent(spends, id) == units_spent(spends.drop_last(), id) + units_among(
                more,
                id,
            ));
        }
        law_gathering_keeps_every_unit(terms, before);
        assert forall|id: AssetId|
            units_among(gathered(before), id) + #[trigger] units_among(more, id) <= u64::MAX by {
            assert(units_spent(spends, id) == units_spent(spends.drop_last(), id) + units_among(
                more,
                id,
            ));
            assert(units_among(gathered(before), id) == units_spent(spends_of(terms, before), id));
        }
        lemma_with_assets(gathered(before), more);
        assert forall|id: AssetId| #[trigger]
            units_among(gathered(records), id) == units_spent(spends, id) by {
            assert(units_among(with_assets(gathered(before), more), id) == units_among(
                gathered(before),
                id,
            ) + units_among(more, id));
            assert(units_among(gathered(before), id) == units_spent(spends_of(terms, before), id));
        }
    }
}

fn add_assets(assets: &mut Vec<(AssetId, u64)>, more: &[(AssetId, u64)])
    requires
        assets_distinct(old(assets)@),
        forall|id: AssetId|
            units_among(old(assets)@, id) + #[trigger] units_among(more@, id) <= u64::MAX,
    ensures
        final(assets)@ == with_assets(old(assets)@, more@),
{
    let ghost start = assets@;
    let mut i: usize = 0;
    assert(more@.take(0) =~= Seq::empty());
    while i < more.len()
        invariant
            i <= more@.len(),
            assets_distinct(start),
            forall|id: AssetId|
                units_among(start, id) + #[trigger] units_among(more@, id) <= u64::MAX,
            assets@ == with_assets(start, more@.take(i as int)),
        decreases more@.len() - i,
    {
        let (id, units): (AssetId, u64) = more[i];
        proof {
            let next = more@.take(i + 1);
            assert(next.drop_last() =~= more@.take(i as int));
            assert(next.last() == (id, units));
            assert forall|id: AssetId|
                units_among(start, id) + #[trigger] units_among(more@.take(i as int), id)
                    <= u64::MAX by {
                lemma_units_taken(more@, i as int, id);
            }
            lemma_with_assets(start, more@.take(i as int));
            lemma_units_taken(more@, i + 1, id);
            assert(units_among(next, id) == units_among(more@.take(i as int), id) + units);
            assert(units_among(assets@, id) == units_among(start, id) + units_among(
                more@.take(i as int),
                id,
            ));
            lemma_asset_place(assets@, id);
        }
        match find_asset(assets, id) {
            Some(place) => {
                let sum: u64 = assets[place].1 + units;
                assets.set(place, (id, sum));
            },
            None => {
                assets.push((id, units));
            },
        }
        i += 1;
    }
    assert(more@.take(more@.len() as int) =~= more@);
}

proof fn lemma_units_taken(assets: Seq<(AssetId, u64)>, n: int, id: AssetId)
    requires
        0 <= n <= assets.len(),
    ensures
        units_among(assets.take(n), id) <= units_among(assets, id),
    decreases assets.len() - n,
{
    if n < assets.len() {
        assert(assets.take(n + 1).drop_last() =~= assets.take(n));
        lemma_units_taken(assets, n + 1, id);
    } else {
        assert(assets.take(n) =~= assets);
    }
}

proof fn lemma_spent_taken(spends: Seq<Spend>, n: int, id: AssetId)
    requires
        0 <= n <= spends.len(),
    ensures
        units_spent(spends.take(n), id) <= units_spent(spends, id),
    decreases spends.len() - n,
{
    if n < spends.len() {
        assert(spends.take(n + 1).drop_last() =~= spends.take(n));
        lemma_spent_taken(spends, n + 1, id);
    } else {
        assert(spends.take(n) =~= spends);
    }
}

proof fn lemma_taken_fits(terms: Terms, records: Seq<Record>, n: int)
    requires
        0 <= n <= records.len(),
        forall|id: AssetId| #[trigger]
            units_spent(spends_of(terms, records), id) <= u64::MAX,
    ensures
        forall|id: AssetId| #[trigger]
            units_spent(spends_of(terms, records.take(n)), id) <= u64::MAX,
{
    let spends = spends_of(terms, records);
    assert(spends_of(terms, records.take(n)) =~= spends.take(n));
    assert forall|id: AssetId| #[trigger] units_spent(spends_of(terms, records.take(n)), id)
        <= u64::MAX by {
        lemma_spent_taken(spends, n, id);
        assert(units_spent(spends, id) <= u64::MAX);
    }
}

fn gather_assets(vtxo: &PlayerVtxo, records: &[VtxoRecord]) -> (assets: Vec<(AssetId, u64)>)
    requires
        forall|id: AssetId| #[trigger]
            units_spent(spends_of(vtxo@, arkade::records_view(records@)), id) <= u64::MAX,
    ensures
        assets@ == gathered(arkade::records_view(records@)),
{
    let ghost all = arkade::records_view(records@);
    let mut assets: Vec<(AssetId, u64)> = Vec::new();
    let mut i: usize = 0;
    assert(all.take(0) =~= Seq::empty());
    while i < records.len()
        invariant
            i <= records@.len(),
            all == arkade::records_view(records@),
            forall|id: AssetId| #[trigger]
                units_spent(spends_of(vtxo@, all), id) <= u64::MAX,
            assets@ == gathered(all.take(i as int)),
        decreases records@.len() - i,
    {
        let more: Vec<(AssetId, u64)> = parse_assets(&records[i].assets);
        proof {
            let before = all.take(i as int);
            let next = all.take(i + 1);
            assert(next.drop_last() =~= before);
            assert(next.last() == records@[i as int]@);
            lemma_taken_fits(vtxo@, all, i as int);
            lemma_taken_fits(vtxo@, all, i + 1);
            law_gathering_keeps_every_unit(vtxo@, before);
            let spends = spends_of(vtxo@, next);
            assert(spends.drop_last() =~= spends_of(vtxo@, before));
            assert(spends.last().assets == more@);
            assert forall|id: AssetId|
                units_among(assets@, id) + #[trigger] units_among(more@, id) <= u64::MAX by {
                assert(units_spent(spends, id) <= u64::MAX);
                assert(units_among(gathered(before), id) == units_spent(
                    spends_of(vtxo@, before),
                    id,
                ));
            }
        }
        add_assets(&mut assets, &more);
        i += 1;
    }
    assert(all.take(all.len() as int) =~= all);
    assets
}

/// A payment of an amount and some assets to one receiver, as
/// `ark_core::send::build_asset_send_transactions` builds it on a machine whose words have
/// `word_bits` bits: the transaction and its checkpoints, or the text of the error.
pub uninterp spec fn offchain_transfer(
    receiver: Seq<char>,
    amount: u64,
    assets: Seq<(AssetId, u64)>,
    change: Seq<char>,
    spends: Seq<Spend>,
    setup: Setup,
    word_bits: u32,
) -> Result<(Signed, Seq<Signed>), Seq<char>>;

/// `ark_core::send::build_asset_send_transactions` with one receiver, who gets all units of every
/// asset that is spent. It adds up the amounts of the inputs and the units of each asset, which have
/// to fit. What it builds is left to `offchain_transfer`.
#[verifier::external_body]
fn build_transfer(
    receiver: &str,
    amount: u64,
    assets: &[(AssetId, u64)],
    change: &str,
    inputs: &[OffchainInput],
    info: &OperatorInfo,
) -> (built: Result<Built, String>)
    requires
        total_spent(inputs_view(inputs@)) <= u64::MAX,
        forall|id: AssetId| #[trigger] units_spent(inputs_view(inputs@), id) <= u64::MAX,
        forall|id: AssetId| #[trigger]
            units_among(assets@, id) == units_spent(inputs_view(inputs@), id),
    ensures
        built_view(built) == offchain_transfer(
            receiver@,
            amount,
            assets@,
            change@,
            inputs_view(inputs@),
            info@,
            usize::BITS,
        ),
{
    let build = || {
        let address = ArkAddress::decode(receiver)?;
        let assets = assets.iter().map(|a| {
            let txid = bitcoin::hashes::Hash::from_byte_array(a.0.txid.bytes);
            Asset { asset_id: AssetKey { txid, group_index: a.0.group_index }, amount: a.1 }
        });
        let receiver = SendReceiver { address, amount: Amount::from_sat(amount), assets: assets.collect() };
        let inputs: Vec<_> = inputs.iter().map(|input| input.inner.clone()).collect();
        send::build_asset_send_transactions(&[receiver], &ArkAddress::decode(change)?, &inputs, &info.inner)
    };
    let inner = build().map_err(|e| e.to_string())?;
    Ok(Built { inner, held: Ghost(arbitrary()) })
}

/// A sweep of some outputs of the player: all their sats and all their assets to a recipient.
pub open spec fn sweep_tx(
    owner: Seq<u8>,
    params: Params,
    info: Setup,
    records: Seq<Record>,
    recipient: Seq<char>,
) -> Result<(Signed, Seq<Signed>), Fault> {
    let terms = terms_of(owner, params);
    if !address::vtxo_exists(terms) {
        Err(Fault::Contract)
    } else {
        built_txs(
            offchain_transfer(
                recipient,
                crate::match_::total_sats(records) as u64,
                gathered(records),
                address::vtxo_address(terms),
                spends_of(terms, records),
                info,
                usize::BITS,
            ),
        )
    }
}

/// Sends all sats and all assets of some outputs to one recipient.
pub fn build_sweep_tx(
    owner: &[u8; 32],
    params: &ServerParams,
    info: &OperatorInfo,
    inputs: &[VtxoRecord],
    recipient: &str,
) -> (txs: Result<(Psbt, Vec<Psbt>), TxError>)
    requires
        crate::match_::total_sats(arkade::records_view(inputs@)) <= u64::MAX,
        forall|id: AssetId| #[trigger]
            units_spent(
                spends_of(terms_of(owner@, params@), arkade::records_view(inputs@)),
                id,
            ) <= u64::MAX,
    ensures
        txs_view(txs) == sweep_tx(
            owner@,
            params@,
            info@,
            arkade::records_view(inputs@),
            recipient@,
        ),
{
    let vtxo: PlayerVtxo = match address::player_vtxo(owner, params) {
        Some(vtxo) => vtxo,
        None => {
            return Err(TxError::Contract);
        },
    };
    let own: String = address::encoded_address(&vtxo);
    let spends: Vec<OffchainInput> = match vtxo_inputs(inputs, &vtxo) {
        Some(spends) => spends,
        None => {
            return Err(TxError::Contract);
        },
    };
    let total: u64 = match crate::match_::total_amount(inputs) {
        Some(total) => total,
        None => 0,
    };
    let assets: Vec<(AssetId, u64)> = gather_assets(&vtxo, inputs);
    proof {
        lemma_total_spent(vtxo@, arkade::records_view(inputs@));
        law_gathering_keeps_every_unit(vtxo@, arkade::records_view(inputs@));
    }
    hold_txs(build_transfer(recipient, total, &assets, own.as_str(), &spends, info))
}

/// The input of a transaction that spends an output of another one; of several the last.
pub open spec fn input_spending(inputs: Seq<chain::TxIn>, txid: Txid) -> Option<int>
    decreases inputs.len(),
{
    if inputs.len() == 0 {
        None
    } else if inputs.last().previous_output.txid == txid {
        Some(inputs.len() - 1)
    } else {
        input_spending(inputs.drop_last(), txid)
    }
}

fn find_input(inputs: &[chain::TxIn], txid: Txid) -> (found: Option<usize>)
    ensures
        match found {
            Some(i) => input_spending(inputs@, txid) == Some(i as int) && i < inputs@.len(),
            None => input_spending(inputs@, txid) is None,
        },
{
    let mut i: usize = inputs.len();
    assert(inputs@.take(i as int) =~= inputs@);
    while i > 0
        invariant
            i <= inputs@.len(),
            input_spending(inputs@, txid) == input_spending(inputs@.take(i as int), txid),
        decreases i,
    {
        proof {
            assert(inputs@.take(i as int).drop_last() =~= inputs@.take(i - 1));
            assert(inputs@.take(i as int).last() == inputs@[i - 1]);
        }
        if inputs[i - 1].previous_output.txid == txid {
            return Some(i - 1);
        }
        i -= 1;
    }
    None
}

/// Where each checkpoint has its witness script from: nowhere else where the operator left it in
/// place, else from the input of the transaction that spends the checkpoint. Nothing where a
/// checkpoint is not among the inputs.
pub open spec fn witness_sources(
    ark_tx: Signed,
    checkpoints: Seq<Signed>,
    in_place: Seq<bool>,
) -> Option<Seq<Option<int>>>
    decreases checkpoints.len(),
{
    if checkpoints.len() == 0 {
        Some(Seq::empty())
    } else {
        match witness_sources(ark_tx, checkpoints.drop_last(), in_place) {
            None => None,
            Some(before) => if in_place[checkpoints.len() - 1] {
                Some(before.push(None))
            } else {
                match input_spending(ark_tx.tx.input, checkpoints.last().txid()) {
                    Some(i) => Some(before.push(Some(i))),
                    None => None,
                }
            },
        }
    }
}

proof fn lemma_witness_sources_take(
    ark_tx: Signed,
    checkpoints: Seq<Signed>,
    in_place: Seq<bool>,
    n: int,
)
    requires
        0 <= n <= checkpoints.len(),
        witness_sources(ark_tx, checkpoints.take(n), in_place) is None,
    ensures
        witness_sources(ark_tx, checkpoints, in_place) is None,
    decreases checkpoints.len() - n,
{
    if n < checkpoints.len() {
        assert(checkpoints.take(n + 1).drop_last() =~= checkpoints.take(n));
        lemma_witness_sources_take(ark_tx, checkpoints, in_place, n + 1);
    } else {
        assert(checkpoints.take(n) =~= checkpoints);
    }
}

pub open spec fn places(sources: Seq<Option<usize>>) -> Seq<Option<int>> {
    sources.map_values(
        |s: Option<usize>|
            match s {
                Some(i) => Some(i as int),
                None => None,
            },
    )
}

/// Finds the witness scripts that the operator may have stripped from returned checkpoints.
pub fn find_witness_sources(ark_tx: &Psbt, checkpoints: &[Psbt], in_place: &[bool]) -> (sources:
    Option<Vec<Option<usize>>>)
    requires
        in_place@.len() == checkpoints@.len(),
    ensures
        match sources {
            Some(sources) => witness_sources(
                ark_tx@,
                psbt::psbts_view(checkpoints@),
                in_place@,
            ) == Some(places(sources@)),
            None => witness_sources(
                ark_tx@,
                psbt::psbts_view(checkpoints@),
                in_place@,
            ) is None,
        },
{
    let ghost all = psbt::psbts_view(checkpoints@);
    let mut sources: Vec<Option<usize>> = Vec::new();
    let mut i: usize = 0;
    proof {
        assert(all.take(0) =~= Seq::empty());
        assert(places(sources@) =~= Seq::<Option<int>>::empty());
    }
    while i < checkpoints.len()
        invariant
            i <= checkpoints@.len() == in_place@.len(),
            all == psbt::psbts_view(checkpoints@),
            witness_sources(ark_tx@, all.take(i as int), in_place@) == Some(places(sources@)),
        decreases checkpoints@.len() - i,
    {
        let ghost was = places(sources@);
        proof {
            assert(all.take(i + 1).drop_last() =~= all.take(i as int));
            assert(all.take(i + 1).last() == checkpoints@[i as int]@);
        }
        if in_place[i] {
            sources.push(None);
            assert(places(sources@) =~= was.push(None));
        } else {
            match find_input(&ark_tx.unsigned_tx().input, checkpoints[i].compute_txid()) {
                Some(place) => {
                    sources.push(Some(place));
                    assert(places(sources@) =~= was.push(Some(place as int)));
                },
                None => {
                    proof {
                        lemma_witness_sources_take(ark_tx@, all, in_place@, i + 1);
                    }
                    return None;
                },
            }
        }
        i += 1;
    }
    assert(all.take(all.len() as int) =~= all);
    Some(sources)
}

/// How long to wait before an attempt to finalize, counted from zero. There are three attempts: the
/// transaction stays pending at the operator until one lands, and a transient failure must not
/// strand the spend.
pub open spec fn finalize_delay(attempt: u32) -> Option<u64> {
    if attempt < 3 {
        Some((500 * attempt) as u64)
    } else {
        None
    }
}

pub fn finalize_delay_ms(attempt: u32) -> (delay: Option<u64>)
    ensures
        delay == finalize_delay(attempt),
{
    if attempt < 3 {
        Some(500 * attempt as u64)
    } else {
        None
    }
}

} // verus!
