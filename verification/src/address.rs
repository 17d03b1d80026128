//! The contracts behind Arkade addresses.

use crate::arkade::{Network, ServerParams};
use crate::chain::{AssetId, OutPoint, Txid};
use crate::text;
use bitcoin::Amount;
use vstd::prelude::*;

verus! {

/// The x-only form of Arkade's standard BIP341 key without a known secret.
pub const NUMS_KEY: [u8; 32] = [
    0x50, 0x92, 0x9b, 0x74, 0xc1, 0xa0, 0x49, 0x54, 0xb7, 0x8b, 0x4b, 0x60, 0x35, 0xe9, 0x7a, 0x5e,
    0x07, 0x8a, 0x5a, 0x0f, 0x28, 0xec, 0x96, 0xd5, 0x47, 0xbf, 0xee, 0x9a, 0xce, 0x80, 0x3a, 0xc0,
];

/// The type of a contract of `ark_core`.
#[verifier::external_type_specification]
#[verifier::external_body]
pub struct ExVtxo(ark_core::Vtxo);

/// The type of a virtual output that `ark_core` can spend.
#[verifier::external_type_specification]
#[verifier::external_body]
pub struct ExVtxoInput(ark_core::send::VtxoInput);

/// Who shares a default contract, and after which delay the owner can leave alone.
#[verifier::ext_equal]
pub struct Terms {
    pub signer: Seq<u8>,
    pub owner: Seq<u8>,
    pub exit_delay: u32,
    pub network: Network,
}

/// A default contract between an operator's signer and an owner.
pub struct PlayerVtxo {
    inner: ark_core::Vtxo,
    terms: Ghost<Terms>,
}

impl View for PlayerVtxo {
    type V = Terms;

    closed spec fn view(&self) -> Terms {
        self.terms@
    }
}

/// Whether `ark_core::Vtxo::new_default` builds a contract on these terms. It does not where a key
/// is not a point or the delay is not a relative lock time.
pub uninterp spec fn vtxo_exists(terms: Terms) -> bool;

/// `ark_core::Vtxo::new_default`: the default contract on the given terms. On which terms there is
/// one is left to `vtxo_exists`.
#[verifier::external_body]
fn open_vtxo(signer: &[u8; 32], owner: &[u8; 32], exit_delay: u32, network: Network) -> (vtxo:
    Option<PlayerVtxo>)
    ensures
        match vtxo {
            Some(vtxo) => vtxo@ == (Terms { signer: signer@, owner: owner@, exit_delay, network })
                && vtxo_exists(vtxo@),
            None => !vtxo_exists(
                (Terms { signer: signer@, owner: owner@, exit_delay, network }),
            ),
        },
{
    let network = match network {
        Network::Bitcoin => bitcoin::Network::Bitcoin,
        Network::Testnet => bitcoin::Network::Testnet,
        Network::Testnet4 => bitcoin::Network::Testnet4,
        Network::Signet => bitcoin::Network::Signet,
        Network::Regtest => bitcoin::Network::Regtest,
    };
    let signer = bitcoin::XOnlyPublicKey::from_slice(signer).ok()?;
    let owner = bitcoin::XOnlyPublicKey::from_slice(owner).ok()?;
    let secp = bitcoin::key::Secp256k1::new();
    let delay = bitcoin::Sequence(exit_delay);
    let inner = ark_core::Vtxo::new_default(&secp, signer, owner, delay, network).ok()?;
    Some(PlayerVtxo { inner, terms: Ghost(arbitrary()) })
}

/// The text of the Arkade address of the default contract on the given terms.
pub uninterp spec fn vtxo_address(terms: Terms) -> Seq<char>;

/// `ark_core::Vtxo::to_ark_address` and the text that `encode` gives of it. Which text that is, is
/// left to `vtxo_address`.
#[verifier::external_body]
pub(crate) fn encoded_address(vtxo: &PlayerVtxo) -> (address: String)
    ensures
        address@ == vtxo_address(vtxo@),
{
    vtxo.inner.to_ark_address().encode()
}

/// The output script of the default contract on the given terms.
pub uninterp spec fn vtxo_script(terms: Terms) -> Seq<u8>;

/// `ark_core::Vtxo::script_pubkey`: the output script of the contract. Which bytes it has is left
/// to `vtxo_script`.
#[verifier::external_body]
fn output_script(vtxo: &PlayerVtxo) -> (script: Vec<u8>)
    ensures
        script@ == vtxo_script(vtxo@),
{
    vtxo.inner.script_pubkey().into_bytes()
}

/// An output of a contract that is to be spent.
#[verifier::ext_equal]
pub struct Spend {
    pub terms: Terms,
    pub outpoint: OutPoint,
    pub amount: u64,
    pub assets: Seq<(AssetId, u64)>,
}

/// An output of a contract, ready to be spent with the operator.
pub struct OffchainInput {
    pub(crate) inner: ark_core::send::VtxoInput,
    spend: Ghost<Spend>,
}

impl View for OffchainInput {
    type V = Spend;

    closed spec fn view(&self) -> Spend {
        self.spend@
    }
}

/// `ark_core::send::VtxoInput::new` with what `ark_core::Vtxo::forfeit_spend_info` gives: an output
/// of the contract, to be spent by the path that both sign. A default contract always has that
/// path.
#[verifier::external_body]
pub(crate) fn spend_output(
    vtxo: &PlayerVtxo,
    outpoint: OutPoint,
    amount: u64,
    assets: &[(AssetId, u64)],
) -> (input: Option<OffchainInput>)
    ensures
        input matches Some(input) && input@ == (Spend {
            terms: vtxo@,
            outpoint,
            amount,
            assets: assets@,
        }),
{
    let (script, block) = vtxo.inner.forfeit_spend_info().ok()?;
    let id = |txid: Txid| bitcoin::hashes::Hash::from_byte_array(txid.bytes);
    let asset = |(a, amount): &(AssetId, u64)| ark_core::Asset {
        asset_id: ark_core::asset::AssetId { txid: id(a.txid), group_index: a.group_index },
        amount: *amount,
    };
    let outpoint = bitcoin::OutPoint::new(id(outpoint.txid), outpoint.vout);
    let amount = Amount::from_sat(amount);
    let assets = assets.iter().map(asset).collect();
    let inner = ark_core::send::VtxoInput::new(
        script, None, block, vtxo.inner.tapscripts(), vtxo.inner.script_pubkey(), amount, outpoint, assets,
    );
    Some(OffchainInput { inner, spend: Ghost(arbitrary()) })
}

/// The default contract between an operator's signer and an owner: the text of its Arkade address
/// and its output script.
pub open spec fn default_vtxo(
    signer: Seq<u8>,
    owner: Seq<u8>,
    exit_delay: u32,
    network: Network,
) -> Option<(Seq<char>, Seq<u8>)> {
    let terms = Terms { signer, owner, exit_delay, network };
    if vtxo_exists(terms) {
        Some((vtxo_address(terms), vtxo_script(terms)))
    } else {
        None
    }
}

/// The on-chain boarding address of an owner at an operator, as `ark_core::BoardingOutput` builds
/// it. Nothing where a key is not a point or the delay is not a relative lock time.
pub uninterp spec fn boarding_output(
    signer: Seq<u8>,
    owner: Seq<u8>,
    exit_delay: u32,
    network: Network,
) -> Option<Seq<char>>;

/// `ark_core::BoardingOutput::new` and the text of its `address()`. What it is, is left to
/// `boarding_output`.
#[verifier::external_body]
fn new_boarding_output(
    signer: &[u8; 32],
    owner: &[u8; 32],
    exit_delay: u32,
    network: Network,
) -> (address: Option<String>)
    ensures
        text::opt_text(address) == boarding_output(signer@, owner@, exit_delay, network),
{
    let network = match network {
        Network::Bitcoin => bitcoin::Network::Bitcoin,
        Network::Testnet => bitcoin::Network::Testnet,
        Network::Testnet4 => bitcoin::Network::Testnet4,
        Network::Signet => bitcoin::Network::Signet,
        Network::Regtest => bitcoin::Network::Regtest,
    };
    let signer = bitcoin::XOnlyPublicKey::from_slice(signer).ok()?;
    let owner = bitcoin::XOnlyPublicKey::from_slice(owner).ok()?;
    let secp = bitcoin::key::Secp256k1::new();
    let delay = bitcoin::Sequence(exit_delay);
    let output = ark_core::BoardingOutput::new(&secp, signer, owner, delay, network).ok()?;
    Some(output.address().to_string())
}

/// An Arkade address in text, as `ark_core::ArkAddress::decode` reads it: the operator's x-only
/// signer key and the text that `encode` gives of it. For any other text, the text of the error.
pub uninterp spec fn ark_address(text: Seq<char>) -> Result<(Seq<u8>, Seq<char>), Seq<char>>;

/// `ark_core::ArkAddress::decode`, with `server()` and `encode()` of the address, or the text of
/// the error. Two addresses are equal exactly where their encoded texts are. Which texts are
/// addresses is left to `ark_address`.
#[verifier::external_body]
pub(crate) fn decode_ark_address(text: &str) -> (address: Result<([u8; 32], String), String>)
    ensures
        match address {
            Ok(address) => ark_address(text@) == Ok::<(Seq<u8>, Seq<char>), Seq<char>>(
                (address.0@, address.1@),
            ),
            Err(error) => ark_address(text@) == Err::<(Seq<u8>, Seq<char>), Seq<char>>(error@),
        },
{
    match ark_core::ArkAddress::decode(text) {
        Ok(address) => Ok((address.server().serialize(), address.encode())),
        Err(error) => Err(error.to_string()),
    }
}

/// A contract: the text of its Arkade address and its output script.
#[derive(Debug)]
pub struct Contract {
    pub address: String,
    pub script: Vec<u8>,
}

/// What a `Contract` is.
pub open spec fn contract_view(contract: Option<Contract>) -> Option<(Seq<char>, Seq<u8>)> {
    match contract {
        Some(contract) => Some((contract.address@, contract.script@)),
        None => None,
    }
}

/// The contract of an owner at an operator.
pub open spec fn contract_of(owner: Seq<u8>, params: ServerParams) -> Option<
    (Seq<char>, Seq<u8>),
> {
    default_vtxo(params.signer_pk@, owner, params.unilateral_exit_delay, params.network)
}

/// The player's default VTXO contract (2-of-2 forfeit + CSV exit leaves).
pub fn player_vtxo(owner: &[u8; 32], params: &ServerParams) -> (vtxo: Option<PlayerVtxo>)
    ensures
        match vtxo {
            Some(vtxo) => vtxo@ == (Terms {
                signer: params.signer_pk@,
                owner: owner@,
                exit_delay: params.unilateral_exit_delay,
                network: params.network,
            }) && contract_of(owner@, *params) == Some((vtxo_address(vtxo@), vtxo_script(vtxo@))),
            None => contract_of(owner@, *params) is None,
        },
{
    open_vtxo(&params.signer_pk, owner, params.unilateral_exit_delay, params.network)
}

/// The address and the script of the player's default contract.
pub fn player_contract(owner: &[u8; 32], params: &ServerParams) -> (contract: Option<Contract>)
    ensures
        contract_view(contract) == contract_of(owner@, *params),
{
    match player_vtxo(owner, params) {
        Some(vtxo) => Some(
            Contract { address: encoded_address(&vtxo), script: output_script(&vtxo) },
        ),
        None => None,
    }
}

/// The registry contract of an operator: the default contract of Arkade's standard owner without
/// a known secret.
pub fn nums_registry_address(params: &ServerParams) -> (contract: Option<Contract>)
    ensures
        contract_view(contract) == contract_of(NUMS_KEY@, *params),
{
    let owner: [u8; 32] = NUMS_KEY;
    player_contract(&owner, params)
}

/// An owner's Arkade address at an operator.
pub fn my_address(owner: &[u8; 32], params: &ServerParams) -> (address: Option<String>)
    ensures
        match contract_of(owner@, *params) {
            Some(contract) => text::opt_text(address) == Some(contract.0),
            None => address is None,
        },
{
    match player_contract(owner, params) {
        Some(contract) => Some(contract.address),
        None => None,
    }
}

/// An owner's VTXO script at an operator, in hexadecimal text.
pub fn my_script_hex(owner: &[u8; 32], params: &ServerParams) -> (script: Option<String>)
    ensures
        match contract_of(owner@, *params) {
            Some(contract) => text::opt_text(script) == Some(text::hex_text(contract.1)),
            None => script is None,
        },
{
    match player_contract(owner, params) {
        Some(contract) => Some(text::hex_string(&contract.script)),
        None => None,
    }
}

/// Onchain boarding address: send coins here to fund the wallet (requires a full wallet to
/// complete the board).
pub fn boarding_address(owner: &[u8; 32], params: &ServerParams) -> (address: Option<String>)
    ensures
        text::opt_text(address) == boarding_output(
            params.signer_pk@,
            owner@,
            params.unilateral_exit_delay,
            params.network,
        ),
{
    new_boarding_output(&params.signer_pk, owner, params.unilateral_exit_delay, params.network)
}

} // verus!
