//! The Arkade REST interface without its transport: what is asked of the operator, and what its
//! answers mean.

use crate::chain;
use crate::chain::{OutPoint, Txid};
use crate::psbt;
use crate::psbt::{Psbt, PsbtFault, Signed};
use crate::text;
use vstd::prelude::*;

verus! {

/// The Bitcoin network that an operator works on.
#[derive(Clone, Copy, Debug, PartialEq, Eq, Structural)]
pub enum Network {
    Bitcoin,
    Testnet,
    Testnet4,
    Signet,
    Regtest,
}

/// What the game needs to know of an operator.
#[derive(Debug)]
pub struct ServerParams {
    pub server_version: String,
    /// The signer's x-only public key.
    pub signer_pk: [u8; 32],
    /// The serialized forfeit public key.
    pub forfeit_pk: Vec<u8>,
    pub network: Network,
    pub network_name: String,
    pub dust_sats: u64,
    pub vtxo_min_sats: u64,
    /// The relative lock time of a unilateral exit, as an input sequence number.
    pub unilateral_exit_delay: u32,
    pub max_op_return_outputs: i64,
    pub checkpoint_tapscript: Vec<u8>,
    pub forfeit_address: String,
}

/// What `ServerParams` hold.
#[verifier::ext_equal]
pub struct Params {
    pub server_version: Seq<char>,
    pub signer_pk: Seq<u8>,
    pub forfeit_pk: Seq<u8>,
    pub network: Network,
    pub network_name: Seq<char>,
    pub dust_sats: u64,
    pub vtxo_min_sats: u64,
    pub unilateral_exit_delay: u32,
    pub max_op_return_outputs: i64,
    pub checkpoint_tapscript: Seq<u8>,
    pub forfeit_address: Seq<char>,
}

impl View for ServerParams {
    type V = Params;

    open spec fn view(&self) -> Params {
        Params {
            server_version: self.server_version@,
            signer_pk: self.signer_pk@,
            forfeit_pk: self.forfeit_pk@,
            network: self.network,
            network_name: self.network_name@,
            dust_sats: self.dust_sats,
            vtxo_min_sats: self.vtxo_min_sats,
            unilateral_exit_delay: self.unilateral_exit_delay,
            max_op_return_outputs: self.max_op_return_outputs,
            checkpoint_tapscript: self.checkpoint_tapscript@,
            forfeit_address: self.forfeit_address@,
        }
    }
}

impl Clone for ServerParams {
    fn clone(&self) -> (copy: ServerParams)
        ensures
            copy@ == self@,
    {
        ServerParams {
            server_version: self.server_version.clone(),
            signer_pk: self.signer_pk,
            forfeit_pk: chain::copy_bytes(&self.forfeit_pk),
            network: self.network,
            network_name: self.network_name.clone(),
            dust_sats: self.dust_sats,
            vtxo_min_sats: self.vtxo_min_sats,
            unilateral_exit_delay: self.unilateral_exit_delay,
            max_op_return_outputs: self.max_op_return_outputs,
            checkpoint_tapscript: chain::copy_bytes(&self.checkpoint_tapscript),
            forfeit_address: self.forfeit_address.clone(),
        }
    }
}

/// One virtual output as the indexer reports it.
#[derive(Debug)]
pub struct VtxoRecord {
    pub outpoint: OutPoint,
    /// PkScript hex of the VTXO (P2TR, or OP_RETURN for sub-dust).
    pub script: String,
    pub amount_sats: u64,
    pub assets: Vec<(String, u64)>,
    pub is_spent: bool,
    pub is_preconfirmed: bool,
    pub is_swept: bool,
    pub is_unrolled: bool,
    pub expires_at: Option<i64>,
    pub created_at: Option<i64>,
    /// Ark transaction that spends this VTXO, when reported by the indexer. The creating virtual
    /// transaction is always `outpoint.txid`.
    pub ark_txid: Option<String>,
    /// Txid of the tx that spent this VTXO, if any.
    pub spent_by: Option<String>,
}

/// What a `VtxoRecord` says.
#[verifier::ext_equal]
pub struct Record {
    pub outpoint: OutPoint,
    pub script: Seq<char>,
    pub amount_sats: u64,
    pub assets: Seq<(Seq<char>, u64)>,
    pub is_spent: bool,
    pub is_preconfirmed: bool,
    pub is_swept: bool,
    pub is_unrolled: bool,
    pub expires_at: Option<i64>,
    pub created_at: Option<i64>,
    pub ark_txid: Option<Seq<char>>,
    pub spent_by: Option<Seq<char>>,
}

pub open spec fn amounts_view(assets: Seq<(String, u64)>) -> Seq<(Seq<char>, u64)> {
    assets.map_values(|a: (String, u64)| (a.0@, a.1))
}

impl View for VtxoRecord {
    type V = Record;

    open spec fn view(&self) -> Record {
        Record {
            outpoint: self.outpoint,
            script: self.script@,
            amount_sats: self.amount_sats,
            assets: amounts_view(self.assets@),
            is_spent: self.is_spent,
            is_preconfirmed: self.is_preconfirmed,
            is_swept: self.is_swept,
            is_unrolled: self.is_unrolled,
            expires_at: self.expires_at,
            created_at: self.created_at,
            ark_txid: text::opt_text(self.ark_txid),
            spent_by: text::opt_text(self.spent_by),
        }
    }
}

pub open spec fn records_view(records: Seq<VtxoRecord>) -> Seq<Record> {
    records.map_values(|r: VtxoRecord| r@)
}

impl Clone for VtxoRecord {
    fn clone(&self) -> (copy: VtxoRecord)
        ensures
            copy@ == self@,
    {
        let mut assets: Vec<(String, u64)> = Vec::new();
        let mut i: usize = 0;
        while i < self.assets.len()
            invariant
                i <= self.assets@.len(),
                amounts_view(assets@) == amounts_view(self.assets@).take(i as int),
            decreases self.assets@.len() - i,
        {
            let ghost was = amounts_view(assets@);
            assets.push((self.assets[i].0.clone(), self.assets[i].1));
            proof {
                let next = (self.assets@[i as int].0@, self.assets@[i as int].1);
                assert(amounts_view(assets@) =~= was.push(next));
                assert(amounts_view(self.assets@).take(i + 1) =~= amounts_view(self.assets@).take(
                    i as int,
                ).push(next));
            }
            i += 1;
        }
        assert(amounts_view(self.assets@).take(self.assets@.len() as int) =~= amounts_view(
            self.assets@,
        ));
        VtxoRecord {
            outpoint: self.outpoint,
            script: self.script.clone(),
            amount_sats: self.amount_sats,
            assets,
            is_spent: self.is_spent,
            is_preconfirmed: self.is_preconfirmed,
            is_swept: self.is_swept,
            is_unrolled: self.is_unrolled,
            expires_at: self.expires_at,
            created_at: self.created_at,
            ark_txid: text::copy_opt_text(&self.ark_txid),
            spent_by: text::copy_opt_text(&self.spent_by),
        }
    }
}

/// One page of records.
#[derive(Debug)]
pub struct VtxoPage {
    pub vtxos: Vec<VtxoRecord>,
    pub current: i32,
    pub next: i32,
    pub total: i32,
}

/// What a `VtxoPage` says.
#[verifier::ext_equal]
pub struct Page {
    pub vtxos: Seq<Record>,
    pub current: i32,
    pub next: i32,
    pub total: i32,
}

impl View for VtxoPage {
    type V = Page;

    open spec fn view(&self) -> Page {
        Page {
            vtxos: records_view(self.vtxos@),
            current: self.current,
            next: self.next,
            total: self.total,
        }
    }
}

/// The operator's address on the web.
pub struct ArkadeRest {
    base: String,
}

impl View for ArkadeRest {
    type V = Seq<char>;

    closed spec fn view(&self) -> Seq<char> {
        self.base@
    }
}

impl ArkadeRest {
    /// An operator at `base`, without slashes at the end.
    pub fn new(base: &str) -> (rest: ArkadeRest)
        ensures
            rest@ == text::without_trailing(base@, |c: char| c == '/'),
    {
        let ghost slash = |c: char| c == '/';
        let n: usize = base.unicode_len();
        let mut end: usize = n;
        assert(base@.subrange(0, n as int) =~= base@);
        while end > 0 && base.get_char(end - 1) == '/'
            invariant
                end <= n == base@.len(),
                slash == (|c: char| c == '/'),
                text::without_trailing(base@, slash) == text::without_trailing(
                    base@.subrange(0, end as int),
                    slash,
                ),
            decreases end,
        {
            assert(base@.subrange(0, end as int).drop_last() =~= base@.subrange(0, end - 1));
            assert(base@.subrange(0, end as int).last() == base@[end - 1]);
            end -= 1;
        }
        proof {
            if end > 0 {
                assert(base@.subrange(0, end as int).last() == base@[end - 1]);
            }
        }
        ArkadeRest { base: base.substring_char(0, end).to_owned() }
    }

    pub fn base(&self) -> (base: &str)
        ensures
            base@ == self@,
    {
        self.base.as_str()
    }
}

impl Clone for ArkadeRest {
    fn clone(&self) -> (copy: ArkadeRest)
        ensures
            copy@ == self@,
    {
        ArkadeRest { base: self.base.clone() }
    }
}

/// The answer to a request for the operator's parameters.
#[derive(Debug)]
pub struct InfoResponse {
    pub version: Option<String>,
    pub signer_pubkey: String,
    pub forfeit_pubkey: Option<String>,
    pub network: String,
    pub dust: String,
    pub vtxo_min_amount: Option<String>,
    pub unilateral_exit_delay: String,
    pub max_op_return_outputs: Option<String>,
    pub checkpoint_tapscript: String,
    pub forfeit_address: String,
}

/// What is wrong with the operator's parameters.
#[derive(Clone, Copy, Debug, PartialEq, Eq, Structural)]
pub enum InfoError {
    SignerPubkey,
    ForfeitPubkey,
    UnsupportedNetwork,
    ExitDelayNumber,
    CheckpointTapscript,
    ForfeitAddress,
    ForfeitAddressNetwork,
    Dust,
    NegativeExitDelay,
    ExitDelayTooLong,
}

/// A public key in hexadecimal text, as `bitcoin::PublicKey::from_str` reads it: its x-only form
/// and its serialized form. Nothing for any other text.
pub uninterp spec fn public_key(text: Seq<char>) -> Option<(Seq<u8>, Seq<u8>)>;

/// `bitcoin::PublicKey::from_str`, with `x_only_public_key` and `to_bytes` of the key. Which texts
/// are keys is left to `public_key`.
#[verifier::external_body]
fn parse_public_key(text: &str) -> (key: Option<([u8; 32], Vec<u8>)>)
    ensures
        match key {
            Some(key) => public_key(text@) == Some((key.0@, key.1@)),
            None => public_key(text@) is None,
        },
{
    let key: bitcoin::PublicKey = text.parse().ok()?;
    Some((key.inner.x_only_public_key().0.serialize(), key.to_bytes()))
}

/// What a text is as an address on a network.
#[derive(Debug)]
pub enum AddressCheck {
    Invalid,
    OtherNetwork,
    Valid(String),
}

/// What an `AddressCheck` says.
#[verifier::ext_equal]
pub enum CheckedAddress {
    Invalid,
    OtherNetwork,
    Valid(Seq<char>),
}

impl View for AddressCheck {
    type V = CheckedAddress;

    open spec fn view(&self) -> CheckedAddress {
        match self {
            AddressCheck::Invalid => CheckedAddress::Invalid,
            AddressCheck::OtherNetwork => CheckedAddress::OtherNetwork,
            AddressCheck::Valid(text) => CheckedAddress::Valid(text@),
        }
    }
}

/// What a text is as an address on a network, as `bitcoin::Address` reads it.
pub uninterp spec fn checked_address(text: Seq<char>, network: Network) -> CheckedAddress;

/// `bitcoin::Address::from_str` and `require_network`, and the text of the address. Which texts
/// are addresses of which network is left to `checked_address`.
#[verifier::external_body]
fn check_address(text: &str, network: Network) -> (check: AddressCheck)
    ensures
        check@ == checked_address(text@, network),
{
    let network = match network {
        Network::Bitcoin => bitcoin::Network::Bitcoin,
        Network::Testnet => bitcoin::Network::Testnet,
        Network::Testnet4 => bitcoin::Network::Testnet4,
        Network::Signet => bitcoin::Network::Signet,
        Network::Regtest => bitcoin::Network::Regtest,
    };
    let Ok(address) = text.parse::<bitcoin::Address<bitcoin::address::NetworkUnchecked>>() else {
        return AddressCheck::Invalid;
    };
    match address.require_network(network) {
        Ok(address) => AddressCheck::Valid(address.to_string()),
        Err(_) => AddressCheck::OtherNetwork,
    }
}

/// The network with a name in lower case.
pub open spec fn network_named(name: Seq<char>) -> Option<Network> {
    if name == "bitcoin"@ || name == "mainnet"@ {
        Some(Network::Bitcoin)
    } else if name == "mutinynet"@ || name == "signet"@ {
        Some(Network::Signet)
    } else if name == "regtest"@ {
        Some(Network::Regtest)
    } else if name == "testnet"@ {
        Some(Network::Testnet)
    } else if name == "testnet4"@ {
        Some(Network::Testnet4)
    } else {
        None
    }
}

fn network_from_name(name: &str) -> (network: Option<Network>)
    ensures
        network == network_named(name@),
{
    if text::same_text(name, "bitcoin") || text::same_text(name, "mainnet") {
        Some(Network::Bitcoin)
    } else if text::same_text(name, "mutinynet") || text::same_text(name, "signet") {
        Some(Network::Signet)
    } else if text::same_text(name, "regtest") {
        Some(Network::Regtest)
    } else if text::same_text(name, "testnet") {
        Some(Network::Testnet)
    } else if text::same_text(name, "testnet4") {
        Some(Network::Testnet4)
    } else {
        None
    }
}

/// The most seconds that a relative lock time can hold: sixteen bits of units of 512 seconds.
pub const MAX_EXIT_DELAY_SECS: i64 = 33_553_920;

/// The input sequence number of a relative lock time: below 512 it counts blocks, from there on
/// seconds, which are rounded up to units of 512 seconds. The units are marked by bit 22 and have
/// to fit sixteen bits.
pub open spec fn exit_sequence(value: i64) -> Result<u32, InfoError> {
    if value < 0 {
        Err(InfoError::NegativeExitDelay)
    } else if value < 512 {
        Ok(value as u32)
    } else if value > MAX_EXIT_DELAY_SECS {
        Err(InfoError::ExitDelayTooLong)
    } else {
        Ok((0x40_0000 + (value + 511) / 512) as u32)
    }
}

/// The input sequence number of an exit delay.
pub fn parse_sequence(value: i64) -> (sequence: Result<u32, InfoError>)
    ensures
        sequence == exit_sequence(value),
{
    if value < 0 {
        Err(InfoError::NegativeExitDelay)
    } else if value < 512 {
        Ok(value as u32)
    } else if value > MAX_EXIT_DELAY_SECS {
        Err(InfoError::ExitDelayTooLong)
    } else {
        Ok((0x40_0000 + (value + 511) / 512) as u32)
    }
}

/// An accepted exit delay of 512 seconds or more is a time lock of the least number of units that
/// holds it, and that number fits sixteen bits.
pub proof fn law_exit_delay_is_rounded_up(value: i64)
    requires
        512 <= value <= MAX_EXIT_DELAY_SECS,
    ensures
        exit_sequence(value) matches Ok(sequence) && {
            let units = sequence - 0x40_0000;
            &&& 1 <= units <= u16::MAX
            &&& 512 * (units - 1) < value <= 512 * units
        },
{
}

/// The parameters that an answer gives, or what is wrong with it.
pub open spec fn params_of(info: InfoResponse) -> Result<Params, InfoError> {
    let forfeit_text = match info.forfeit_pubkey {
        Some(key) => key@,
        None => info.signer_pubkey@,
    };
    let name = text::lower(info.network@);
    match public_key(info.signer_pubkey@) {
        None => Err(InfoError::SignerPubkey),
        Some(signer) => match public_key(forfeit_text) {
            None => Err(InfoError::ForfeitPubkey),
            Some(forfeit) => match network_named(name) {
                None => Err(InfoError::UnsupportedNetwork),
                Some(network) => match text::parsed_i64(info.unilateral_exit_delay@) {
                    None => Err(InfoError::ExitDelayNumber),
                    Some(delay) => match text::hex_bytes(info.checkpoint_tapscript@) {
                        None => Err(InfoError::CheckpointTapscript),
                        Some(tapscript) => match checked_address(info.forfeit_address@, network) {
                            CheckedAddress::Invalid => Err(InfoError::ForfeitAddress),
                            CheckedAddress::OtherNetwork => Err(InfoError::ForfeitAddressNetwork),
                            CheckedAddress::Valid(address) => match text::parsed_u64(info.dust@) {
                                None => Err(InfoError::Dust),
                                Some(dust_sats) => match exit_sequence(delay) {
                                    Err(error) => Err(error),
                                    Ok(unilateral_exit_delay) => Ok(
                                        Params {
                                            server_version: match info.version {
                                                Some(version) => version@,
                                                None => "unknown"@,
                                            },
                                            signer_pk: signer.0,
                                            forfeit_pk: forfeit.1,
                                            network,
                                            network_name: name,
                                            dust_sats,
                                            vtxo_min_sats: match info.vtxo_min_amount {
                                                Some(amount) => match text::parsed_u64(amount@) {
                                                    Some(amount) => amount,
                                                    None => 1,
                                                },
                                                None => 1,
                                            },
                                            unilateral_exit_delay,
                                            max_op_return_outputs: match info.max_op_return_outputs {
                                                Some(count) => match text::parsed_i64(count@) {
                                                    Some(count) => count,
                                                    None => 0,
                                                },
                                                None => 0,
                                            },
                                            checkpoint_tapscript: tapscript,
                                            forfeit_address: address,
                                        },
                                    ),
                                },
                            },
                        },
                    },
                },
            },
        },
    }
}

/// Reads the operator's parameters from its answer.
pub fn params_from_info(info: &InfoResponse) -> (params: Result<ServerParams, InfoError>)
    ensures
        match params {
            Ok(params) => params_of(*info) == Ok::<Params, InfoError>(params@),
            Err(error) => params_of(*info) == Err::<Params, InfoError>(error),
        },
{
    let signer: ([u8; 32], Vec<u8>) = match parse_public_key(info.signer_pubkey.as_str()) {
        Some(key) => key,
        None => {
            return Err(InfoError::SignerPubkey);
        },
    };
    let forfeit_text: &str = match &info.forfeit_pubkey {
        Some(key) => key.as_str(),
        None => info.signer_pubkey.as_str(),
    };
    let forfeit: ([u8; 32], Vec<u8>) = match parse_public_key(forfeit_text) {
        Some(key) => key,
        None => {
            return Err(InfoError::ForfeitPubkey);
        },
    };
    let network_name: String = text::ascii_lowercase(info.network.as_str());
    let network: Network = match network_from_name(network_name.as_str()) {
        Some(network) => network,
        None => {
            return Err(InfoError::UnsupportedNetwork);
        },
    };
    let delay: i64 = match text::parse_i64(info.unilateral_exit_delay.as_str()) {
        Some(delay) => delay,
        None => {
            return Err(InfoError::ExitDelayNumber);
        },
    };
    let checkpoint_tapscript: Vec<u8> = match text::parse_hex(info.checkpoint_tapscript.as_str()) {
        Some(script) => script,
        None => {
            return Err(InfoError::CheckpointTapscript);
        },
    };
    let forfeit_address: String = match check_address(info.forfeit_address.as_str(), network) {
        AddressCheck::Valid(address) => address,
        AddressCheck::Invalid => {
            return Err(InfoError::ForfeitAddress);
        },
        AddressCheck::OtherNetwork => {
            return Err(InfoError::ForfeitAddressNetwork);
        },
    };
    let dust_sats: u64 = match text::parse_u64(info.dust.as_str()) {
        Some(dust) => dust,
        None => {
            return Err(InfoError::Dust);
        },
    };
    let unilateral_exit_delay: u32 = match parse_sequence(delay) {
        Ok(sequence) => sequence,
        Err(error) => {
            return Err(error);
        },
    };
    Ok(
        ServerParams {
            server_version: match &info.version {
                Some(version) => version.clone(),
                None => "unknown".to_owned(),
            },
            signer_pk: signer.0,
            forfeit_pk: forfeit.1,
            network,
            network_name,
            dust_sats,
            vtxo_min_sats: match &info.vtxo_min_amount {
                Some(amount) => match text::parse_u64(amount.as_str()) {
                    Some(amount) => amount,
                    None => 1,
                },
                None => 1,
            },
            unilateral_exit_delay,
            max_op_return_outputs: match &info.max_op_return_outputs {
                Some(count) => match text::parse_i64(count.as_str()) {
                    Some(count) => count,
                    None => 0,
                },
                None => 0,
            },
            checkpoint_tapscript,
            forfeit_address,
        },
    )
}

/// A virtual output in an answer of the indexer.
#[derive(Debug)]
pub struct IndexerVtxo {
    pub outpoint: Option<IndexerOutpoint>,
    pub script: Option<String>,
    pub amount: Option<String>,
    pub assets: Option<Vec<IndexerAsset>>,
    pub is_spent: Option<bool>,
    pub is_preconfirmed: Option<bool>,
    pub is_swept: Option<bool>,
    pub is_unrolled: Option<bool>,
    pub expires_at: Option<String>,
    pub created_at: Option<String>,
    pub ark_txid: Option<String>,
    pub spent_by: Option<String>,
}

#[derive(Debug)]
pub struct IndexerOutpoint {
    pub txid: String,
    pub vout: u32,
}

#[derive(Debug)]
pub struct IndexerAsset {
    pub asset_id: String,
    pub amount: Option<String>,
}

/// The place of a page in a listing.
#[derive(Clone, Copy, Debug)]
pub struct IndexerPage {
    pub current: Option<i32>,
    pub next: Option<i32>,
    pub total: Option<i32>,
}

/// The answer to a request for one page of virtual outputs.
#[derive(Debug)]
pub struct GetVtxosResponse {
    pub vtxos: Option<Vec<IndexerVtxo>>,
    pub page: Option<IndexerPage>,
}

/// An amount in an answer; zero where it is missing or no number.
pub open spec fn amount_of(text: Option<String>) -> u64 {
    match text {
        Some(text) => match text::parsed_u64(text@) {
            Some(amount) => amount,
            None => 0,
        },
        None => 0,
    }
}

fn parse_amount(text: &Option<String>) -> (amount: u64)
    ensures
        amount == amount_of(*text),
{
    match text {
        Some(text) => match text::parse_u64(text.as_str()) {
            Some(amount) => amount,
            None => 0,
        },
        None => 0,
    }
}

/// A timestamp in an answer, where it is a number.
pub open spec fn time_of(text: Option<String>) -> Option<i64> {
    match text {
        Some(text) => text::parsed_i64(text@),
        None => None,
    }
}

fn parse_time(text: &Option<String>) -> (time: Option<i64>)
    ensures
        time == time_of(*text),
{
    match text {
        Some(text) => text::parse_i64(text.as_str()),
        None => None,
    }
}

/// An asset of a virtual output, where its id is well formed.
pub open spec fn indexed_asset(asset: IndexerAsset) -> Option<(Seq<char>, u64)> {
    if chain::asset_id_of(asset.asset_id@) is Some {
        Some((asset.asset_id@, amount_of(asset.amount)))
    } else {
        None
    }
}

/// The well-formed assets of a virtual output, in order.
pub open spec fn indexed_assets(assets: Option<Vec<IndexerAsset>>) -> Seq<(Seq<char>, u64)> {
    match assets {
        Some(assets) => assets@.filter_map(|a: IndexerAsset| indexed_asset(a)),
        None => Seq::empty(),
    }
}

fn parse_assets(assets: &Option<Vec<IndexerAsset>>) -> (found: Vec<(String, u64)>)
    ensures
        amounts_view(found@) == indexed_assets(*assets),
{
    let mut found: Vec<(String, u64)> = Vec::new();
    proof {
        assert(amounts_view(found@) =~= Seq::empty());
    }
    match assets {
        Some(assets) => {
            let ghost f = |a: IndexerAsset| indexed_asset(a);
            let mut i: usize = 0;
            proof {
                assert(assets@.take(0) =~= Seq::empty());
                assert(assets@.take(0).filter_map(f) =~= Seq::<(Seq<char>, u64)>::empty());
            }
            while i < assets.len()
                invariant
                    i <= assets@.len(),
                    f == (|a: IndexerAsset| indexed_asset(a)),
                    amounts_view(found@) == assets@.take(i as int).filter_map(f),
                decreases assets@.len() - i,
            {
                proof {
                    assets@.lemma_filter_map_take_succ(f, i as int);
                }
                let asset: &IndexerAsset = &assets[i];
                let ghost was = amounts_view(found@);
                if chain::parse_asset_id(asset.asset_id.as_str()).is_some() {
                    let amount: u64 = parse_amount(&asset.amount);
                    found.push((asset.asset_id.clone(), amount));
                    assert(amounts_view(found@) =~= was + seq![(asset.asset_id@, amount)]);
                } else {
                    assert(was + Seq::<(Seq<char>, u64)>::empty() =~= was);
                }
                i += 1;
            }
            assert(assets@.take(assets@.len() as int) =~= assets@);
        },
        None => {},
    }
    found
}

/// The record of a virtual output: nothing where its transaction id is malformed, nothing inside
/// where it lacks an outpoint or a script and is passed over.
pub open spec fn indexed_record(v: IndexerVtxo) -> Option<Option<Record>> {
    match (v.outpoint, v.script) {
        (Some(outpoint), Some(script)) => match Txid::of_text(outpoint.txid@) {
            Some(txid) => Some(
                Some(
                    Record {
                        outpoint: OutPoint { txid, vout: outpoint.vout },
                        script: script@,
                        amount_sats: amount_of(v.amount),
                        assets: indexed_assets(v.assets),
                        is_spent: v.is_spent == Some(true),
                        is_preconfirmed: v.is_preconfirmed == Some(true),
                        is_swept: v.is_swept == Some(true),
                        is_unrolled: v.is_unrolled == Some(true),
                        expires_at: time_of(v.expires_at),
                        created_at: time_of(v.created_at),
                        ark_txid: text::opt_text(v.ark_txid),
                        spent_by: text::opt_text(v.spent_by),
                    },
                ),
            ),
            None => None,
        },
        _ => Some(None),
    }
}

fn is_set(flag: Option<bool>) -> (set: bool)
    ensures
        set == (flag == Some(true)),
{
    match flag {
        Some(flag) => flag,
        None => false,
    }
}

fn record_from_indexer(v: &IndexerVtxo) -> (record: Option<Option<VtxoRecord>>)
    ensures
        match record {
            Some(Some(record)) => indexed_record(*v) == Some(Some(record@)),
            Some(None) => indexed_record(*v) == Some(None::<Record>),
            None => indexed_record(*v) is None,
        },
{
    match (&v.outpoint, &v.script) {
        (Some(outpoint), Some(script)) => match Txid::from_text(outpoint.txid.as_str()) {
            Some(txid) => {
                let record: VtxoRecord = VtxoRecord {
                    outpoint: OutPoint { txid, vout: outpoint.vout },
                    script: script.clone(),
                    amount_sats: parse_amount(&v.amount),
                    assets: parse_assets(&v.assets),
                    is_spent: is_set(v.is_spent),
                    is_preconfirmed: is_set(v.is_preconfirmed),
                    is_swept: is_set(v.is_swept),
                    is_unrolled: is_set(v.is_unrolled),
                    expires_at: parse_time(&v.expires_at),
                    created_at: parse_time(&v.created_at),
                    ark_txid: text::copy_opt_text(&v.ark_txid),
                    spent_by: text::copy_opt_text(&v.spent_by),
                };
                Some(Some(record))
            },
            None => None,
        },
        _ => Some(None),
    }
}

/// The records of an answer, in order; nothing where one of them is malformed.
pub open spec fn indexed_records(vtxos: Seq<IndexerVtxo>) -> Option<Seq<Record>>
    decreases vtxos.len(),
{
    if vtxos.len() == 0 {
        Some(Seq::empty())
    } else {
        match (indexed_records(vtxos.drop_last()), indexed_record(vtxos.last())) {
            (Some(done), Some(Some(record))) => Some(done.push(record)),
            (Some(done), Some(None)) => Some(done),
            _ => None,
        }
    }
}

proof fn lemma_indexed_records_take(vtxos: Seq<IndexerVtxo>, n: int)
    requires
        0 <= n <= vtxos.len(),
        indexed_records(vtxos.take(n)) is None,
    ensures
        indexed_records(vtxos) is None,
    decreases vtxos.len() - n,
{
    if n < vtxos.len() {
        assert(vtxos.take(n + 1).drop_last() =~= vtxos.take(n));
        lemma_indexed_records_take(vtxos, n + 1);
    } else {
        assert(vtxos.take(n) =~= vtxos);
    }
}

/// The page that an answer to a request for page `page_index` stands for; nothing where a record
/// is malformed.
pub open spec fn page_of(response: GetVtxosResponse, page_index: i32) -> Option<Page> {
    let vtxos = match response.vtxos {
        Some(vtxos) => vtxos@,
        None => Seq::empty(),
    };
    match indexed_records(vtxos) {
        Some(vtxos) => {
            let (current, next, total) = match response.page {
                Some(page) => (page.current, page.next, page.total),
                None => (Some(page_index), Some(0i32), Some(page_index)),
            };
            Some(
                Page {
                    vtxos,
                    current: match current {
                        Some(current) => current,
                        None => page_index,
                    },
                    next: match next {
                        Some(next) => next,
                        None => 0,
                    },
                    total: match total {
                        Some(total) => total,
                        None => page_index,
                    },
                },
            )
        },
        None => None,
    }
}

fn records_from_indexer(vtxos: &Vec<IndexerVtxo>) -> (records: Option<Vec<VtxoRecord>>)
    ensures
        match records {
            Some(records) => indexed_records(vtxos@) == Some(records_view(records@)),
            None => indexed_records(vtxos@) is None,
        },
{
    let mut records: Vec<VtxoRecord> = Vec::new();
    let mut i: usize = 0;
    proof {
        assert(vtxos@.take(0) =~= Seq::empty());
        assert(records_view(records@) =~= Seq::<Record>::empty());
    }
    while i < vtxos.len()
        invariant
            i <= vtxos@.len(),
            indexed_records(vtxos@.take(i as int)) == Some(records_view(records@)),
        decreases vtxos@.len() - i,
    {
        proof {
            assert(vtxos@.take(i + 1).drop_last() =~= vtxos@.take(i as int));
        }
        match record_from_indexer(&vtxos[i]) {
            Some(Some(record)) => {
                let ghost was = records_view(records@);
                let ghost read = record@;
                records.push(record);
                assert(records_view(records@) =~= was.push(read));
            },
            Some(None) => {},
            None => {
                proof {
                    lemma_indexed_records_take(vtxos@, i + 1);
                }
                return None;
            },
        }
        i += 1;
    }
    assert(vtxos@.take(vtxos@.len() as int) =~= vtxos@);
    Some(records)
}

/// Reads a page from an answer.
pub fn page_from_response(response: &GetVtxosResponse, page_index: i32) -> (page: Option<VtxoPage>)
    ensures
        match page {
            Some(page) => page_of(*response, page_index) == Some(page@),
            None => page_of(*response, page_index) is None,
        },
{
    let vtxos: Vec<VtxoRecord> = match &response.vtxos {
        Some(vtxos) => match records_from_indexer(vtxos) {
            Some(records) => records,
            None => {
                return None;
            },
        },
        None => {
            let none: Vec<VtxoRecord> = Vec::new();
            assert(records_view(none@) =~= Seq::<Record>::empty());
            none
        },
    };
    let page: IndexerPage = match response.page {
        Some(page) => page,
        None => IndexerPage {
            current: Some(page_index),
            next: Some(0),
            total: Some(page_index),
        },
    };
    Some(
        VtxoPage {
            vtxos,
            current: match page.current {
                Some(current) => current,
                None => page_index,
            },
            next: match page.next {
                Some(next) => next,
                None => 0,
            },
            total: match page.total {
                Some(total) => total,
                None => page_index,
            },
        },
    )
}

/// The page that stands for a listing of no scripts: it is empty and the last.
pub fn empty_page(page_index: i32) -> (page: VtxoPage)
    ensures
        page@ == (Page {
            vtxos: Seq::empty(),
            current: page_index,
            next: 0,
            total: page_index,
        }),
{
    let vtxos: Vec<VtxoRecord> = Vec::new();
    assert(records_view(vtxos@) =~= Seq::<Record>::empty());
    VtxoPage { vtxos, current: page_index, next: 0, total: page_index }
}

/// The page that follows, where there is one.
pub open spec fn next_page(page: Page) -> Option<i32> {
    if page.next <= page.current || page.next <= 0 || page.current >= page.total {
        None
    } else {
        Some(page.next)
    }
}

/// The page to ask for after this one.
pub fn following_page(page: &VtxoPage) -> (next: Option<i32>)
    ensures
        next == next_page(page@),
{
    if page.next <= page.current || page.next <= 0 || page.current >= page.total {
        None
    } else {
        Some(page.next)
    }
}

/// Following pages always leads forward, so a listing of finitely many pages ends.
pub proof fn law_pages_lead_forward(page: Page)
    requires
        next_page(page) is Some,
    ensures
        page.current < next_page(page).unwrap(),
        0 < next_page(page).unwrap(),
{
}

/// The query of one page of virtual outputs for some scripts.
pub open spec fn vtxos_query(
    base: Seq<char>,
    scripts: Seq<Seq<char>>,
    filter: Seq<char>,
    page_size: i32,
    page_index: i32,
) -> Seq<char> {
    let fields = scripts.map_values(|s: Seq<char>| "scripts="@ + s);
    let plain = base + "/v1/indexer/vtxos?"@ + text::joined(fields, "&"@) + "&page.size="@
        + text::int_text(page_size as int) + "&page.index="@ + text::int_text(page_index as int);
    if filter.len() == 0 {
        plain
    } else {
        plain + "&"@ + filter + "=true"@
    }
}

/// The address to ask for one page of virtual outputs. The gateway takes repeated fields as
/// repeated query parameters.
pub fn vtxos_url(
    base: &str,
    script_hexes: &[String],
    filter: &str,
    page_size: i32,
    page_index: i32,
) -> (url: String)
    ensures
        url@ == vtxos_query(base@, text::texts(script_hexes@), filter@, page_size, page_index),
{
    let ghost scripts = text::texts(script_hexes@);
    let ghost expected = scripts.map_values(|s: Seq<char>| "scripts="@ + s);
    let mut fields: Vec<String> = Vec::new();
    let mut i: usize = 0;
    while i < script_hexes.len()
        invariant
            i <= script_hexes@.len(),
            scripts == text::texts(script_hexes@),
            expected == scripts.map_values(|s: Seq<char>| "scripts="@ + s),
            text::texts(fields@) == expected.take(i as int),
        decreases script_hexes@.len() - i,
    {
        let mut field: String = "scripts=".to_owned();
        field.append(script_hexes[i].as_str());
        let ghost was = text::texts(fields@);
        let ghost added = field@;
        fields.push(field);
        proof {
            assert(text::texts(fields@) =~= was.push(added));
            assert(expected.take(i + 1) =~= expected.take(i as int).push(expected[i as int]));
        }
        i += 1;
    }
    assert(expected.take(expected.len() as int) =~= expected);
    let mut url: String = base.to_owned();
    url.append("/v1/indexer/vtxos?");
    let query: String = text::join(&fields, "&");
    url.append(query.as_str());
    url.append("&page.size=");
    let size: String = text::int_string(page_size as i64);
    url.append(size.as_str());
    url.append("&page.index=");
    let index: String = text::int_string(page_index as i64);
    url.append(index.as_str());
    if filter.unicode_len() > 0 {
        url.append("&");
        url.append(filter);
        url.append("=true");
    }
    url
}

/// The address to ask for virtual transactions by their ids.
pub fn virtual_txs_url(base: &str, txids: &[String]) -> (url: String)
    ensures
        url@ == base@ + "/v1/indexer/virtualTx/"@ + text::joined(text::texts(txids@), ","@),
{
    let mut url: String = base.to_owned();
    url.append("/v1/indexer/virtualTx/");
    let ids: String = text::join(txids, ",");
    url.append(ids.as_str());
    url
}

/// Whether some record is of this output.
pub open spec fn lists(records: Seq<Record>, outpoint: OutPoint) -> bool {
    exists|i: int| 0 <= i < records.len() && (#[trigger] records[i]).outpoint == outpoint
}

/// Records with those of a page behind that are of new outputs.
pub open spec fn with_page(records: Seq<Record>, page: Seq<Record>) -> Seq<Record>
    decreases page.len(),
{
    if page.len() == 0 {
        records
    } else {
        let before = with_page(records, page.drop_last());
        if lists(before, page.last().outpoint) {
            before
        } else {
            before.push(page.last())
        }
    }
}

/// No output is listed twice.
pub open spec fn distinct_outputs(records: Seq<Record>) -> bool {
    forall|i: int, j: int|
        0 <= i < j < records.len() ==> (#[trigger] records[i]).outpoint
            != (#[trigger] records[j]).outpoint
}

/// Adding a page keeps the listed outputs distinct, keeps every earlier record in its place, and
/// lists every output of the page.
pub proof fn law_pages_do_not_repeat_outputs(records: Seq<Record>, page: Seq<Record>)
    requires
        distinct_outputs(records),
    ensures
        distinct_outputs(with_page(records, page)),
        records.is_prefix_of(with_page(records, page)),
        forall|i: int|
            0 <= i < page.len() ==> lists(with_page(records, page), (#[trigger] page[i]).outpoint),
    decreases page.len(),
{
    if page.len() > 0 {
        let rest = page.drop_last();
        law_pages_do_not_repeat_outputs(records, rest);
        let before = with_page(records, rest);
        let now = with_page(records, page);
        assert forall|i: int| 0 <= i < page.len() implies lists(
            now,
            (#[trigger] page[i]).outpoint,
        ) by {
            if i < rest.len() {
                assert(rest[i] == page[i]);
                let k = choose|k: int|
                    0 <= k < before.len() && (#[trigger] before[k]).outpoint == page[i].outpoint;
                assert(now[k].outpoint == page[i].outpoint);
            } else if !lists(before, page.last().outpoint) {
                assert(now[before.len() as int].outpoint == page[i].outpoint);
            }
        }
        if !lists(before, page.last().outpoint) {
            assert forall|i: int, j: int| 0 <= i < j < now.len() implies (#[trigger] now[i]).outpoint
                != (#[trigger] now[j]).outpoint by {
                assert(now[i] == before[i]);
                if j < before.len() {
                    assert(now[j] == before[j]);
                }
            }
        }
    }
}

/// Whether an output is among the records.
pub fn is_listed(records: &[VtxoRecord], outpoint: OutPoint) -> (listed: bool)
    ensures
        listed == lists(records_view(records@), outpoint),
{
    let ghost all = records_view(records@);
    let mut i: usize = 0;
    while i < records.len()
        invariant
            i <= records@.len(),
            all == records_view(records@),
            forall|k: int| 0 <= k < i ==> (#[trigger] all[k]).outpoint != outpoint,
        decreases records@.len() - i,
    {
        assert(all[i as int] == records@[i as int]@);
        if records[i].outpoint == outpoint {
            return true;
        }
        i += 1;
    }
    false
}

/// Adds the records of a page that are of new outputs.
pub fn add_page(records: &mut Vec<VtxoRecord>, page: &[VtxoRecord])
    ensures
        records_view(final(records)@) == with_page(records_view(old(records)@), records_view(page@)),
{
    let ghost start = records_view(records@);
    let ghost all = records_view(page@);
    let mut i: usize = 0;
    assert(all.take(0) =~= Seq::empty());
    while i < page.len()
        invariant
            i <= page@.len(),
            all == records_view(page@),
            records_view(records@) == with_page(start, all.take(i as int)),
        decreases page@.len() - i,
    {
        proof {
            assert(all.take(i + 1).drop_last() =~= all.take(i as int));
            assert(all.take(i + 1).last() == page@[i as int]@);
        }
        if !is_listed(records, page[i].outpoint) {
            let ghost was = records_view(records@);
            records.push(page[i].clone());
            assert(records_view(records@) =~= was.push(page@[i as int]@));
        }
        i += 1;
    }
    assert(all.take(all.len() as int) =~= all);
}

/// One step of a listing that follows every page: takes in a page and gives the page to ask for
/// next.
pub fn absorb_page(records: &mut Vec<VtxoRecord>, page: &VtxoPage) -> (next: Option<i32>)
    ensures
        records_view(final(records)@) == with_page(records_view(old(records)@), page@.vtxos),
        next == next_page(page@),
{
    add_page(records, &page.vtxos);
    following_page(page)
}

/// What is wrong with a virtual transaction in an answer.
#[derive(Clone, Copy, Debug, PartialEq, Eq, Structural)]
pub enum VirtualTxError {
    /// It is neither a PSBT in base64 nor hexadecimal text.
    NeitherPsbtNorHex,
    /// Its bytes are no transaction.
    NotATransaction,
    /// The transaction carries signatures of its own.
    NotUnsigned,
}

/// The virtual transaction in an entry of an answer: a PSBT in base64, or else a raw transaction
/// in hexadecimal text.
pub open spec fn virtual_tx(entry: Seq<char>) -> Result<Signed, VirtualTxError> {
    match psbt::psbt_of_text(entry) {
        Ok(psbt) => Ok(psbt),
        Err(_) => match text::hex_bytes(entry) {
            None => Err(VirtualTxError::NeitherPsbtNorHex),
            Some(raw) => match psbt::wrapped_transaction(raw) {
                None => Err(VirtualTxError::NotATransaction),
                Some(None) => Err(VirtualTxError::NotUnsigned),
                Some(Some(psbt)) => Ok(psbt),
            },
        },
    }
}

/// Reads one virtual transaction.
pub fn decode_virtual_tx(entry: &str) -> (psbt: Result<Psbt, VirtualTxError>)
    ensures
        match psbt {
            Ok(psbt) => virtual_tx(entry@) == Ok::<Signed, VirtualTxError>(psbt@),
            Err(error) => virtual_tx(entry@) == Err::<Signed, VirtualTxError>(error),
        },
{
    match psbt::parse_psbt(entry) {
        Ok(psbt) => {
            return Ok(psbt);
        },
        Err(_) => {},
    }
    let raw: Vec<u8> = match text::parse_hex(entry) {
        Some(raw) => raw,
        None => {
            return Err(VirtualTxError::NeitherPsbtNorHex);
        },
    };
    match psbt::wrap_transaction(&raw) {
        None => Err(VirtualTxError::NotATransaction),
        Some(None) => Err(VirtualTxError::NotUnsigned),
        Some(Some(data)) => Ok(Psbt::of(data)),
    }
}

/// The virtual transactions of an answer, or what is wrong with the first bad one.
pub open spec fn virtual_txs(entries: Seq<Seq<char>>) -> Result<Seq<Signed>, VirtualTxError>
    decreases entries.len(),
{
    if entries.len() == 0 {
        Ok(Seq::empty())
    } else {
        match virtual_txs(entries.drop_last()) {
            Ok(done) => match virtual_tx(entries.last()) {
                Ok(psbt) => Ok(done.push(psbt)),
                Err(error) => Err(error),
            },
            Err(error) => Err(error),
        }
    }
}

proof fn lemma_first_bad_tx(entries: Seq<Seq<char>>, n: int, error: VirtualTxError)
    requires
        0 <= n <= entries.len(),
        virtual_txs(entries.take(n)) == Err::<Seq<Signed>, VirtualTxError>(error),
    ensures
        virtual_txs(entries) == Err::<Seq<Signed>, VirtualTxError>(error),
    decreases entries.len() - n,
{
    if n < entries.len() {
        assert(entries.take(n + 1).drop_last() =~= entries.take(n));
        lemma_first_bad_tx(entries, n + 1, error);
    } else {
        assert(entries.take(n) =~= entries);
    }
}

/// Reads the virtual transactions of an answer.
pub fn decode_virtual_txs(entries: &[String]) -> (psbts: Result<Vec<Psbt>, VirtualTxError>)
    ensures
        match psbts {
            Ok(psbts) => virtual_txs(text::texts(entries@)) == Ok::<Seq<Signed>, VirtualTxError>(
                psbt::psbts_view(psbts@),
            ),
            Err(error) => virtual_txs(text::texts(entries@)) == Err::<Seq<Signed>, VirtualTxError>(
                error,
            ),
        },
{
    let ghost all = text::texts(entries@);
    let mut psbts: Vec<Psbt> = Vec::new();
    let mut i: usize = 0;
    proof {
        assert(all.take(0) =~= Seq::empty());
        assert(psbt::psbts_view(psbts@) =~= Seq::<Signed>::empty());
    }
    while i < entries.len()
        invariant
            i <= entries@.len(),
            all == text::texts(entries@),
            virtual_txs(all.take(i as int)) == Ok::<Seq<Signed>, VirtualTxError>(
                psbt::psbts_view(psbts@),
            ),
        decreases entries@.len() - i,
    {
        proof {
            assert(all.take(i + 1).drop_last() =~= all.take(i as int));
            assert(all.take(i + 1).last() == entries@[i as int]@);
        }
        match decode_virtual_tx(entries[i].as_str()) {
            Ok(psbt) => {
                let ghost was = psbt::psbts_view(psbts@);
                let ghost read = psbt@;
                psbts.push(psbt);
                assert(psbt::psbts_view(psbts@) =~= was.push(read));
            },
            Err(error) => {
                proof {
                    lemma_first_bad_tx(all, i + 1, error);
                }
                return Err(error);
            },
        }
        i += 1;
    }
    assert(all.take(all.len() as int) =~= all);
    Ok(psbts)
}

/// The answer to a submitted transaction, and one entry of the answer on pending transactions.
#[derive(Debug)]
pub struct SubmitTxResponse {
    pub ark_txid: Option<String>,
    pub final_ark_tx: Option<String>,
    pub signed_checkpoint_txs: Option<Vec<String>>,
}

/// What is wrong with the answer to a submitted transaction.
#[derive(Clone, Copy, Debug, PartialEq, Eq, Structural)]
pub enum SubmitError {
    MissingArkTx,
    ArkTx(PsbtFault),
    Checkpoint(PsbtFault),
}

/// A transaction that the operator has cosigned.
pub struct CosignedTx {
    pub txid: Txid,
    pub signed_ark: Psbt,
    pub checkpoints: Vec<Psbt>,
}

/// What a `CosignedTx` holds.
#[verifier::ext_equal]
pub struct Cosigned {
    pub txid: Txid,
    pub signed_ark: Signed,
    pub checkpoints: Seq<Signed>,
}

impl View for CosignedTx {
    type V = Cosigned;

    open spec fn view(&self) -> Cosigned {
        Cosigned {
            txid: self.txid,
            signed_ark: self.signed_ark@,
            checkpoints: psbt::psbts_view(self.checkpoints@),
        }
    }
}

pub open spec fn cosigned_view(list: Seq<CosignedTx>) -> Seq<Cosigned> {
    list.map_values(|c: CosignedTx| c@)
}

/// The cosigned transaction in an answer. Its id is the one reported where that is well formed,
/// else that of the transaction itself.
pub open spec fn cosigned_tx(response: SubmitTxResponse) -> Result<Cosigned, SubmitError> {
    match response.final_ark_tx {
        None => Err(SubmitError::MissingArkTx),
        Some(ark) => match psbt::psbt_of_text(ark@) {
            Err(fault) => Err(SubmitError::ArkTx(fault)),
            Ok(signed_ark) => {
                let reported = match response.ark_txid {
                    Some(text) => Txid::of_text(text@),
                    None => None,
                };
                let texts = match response.signed_checkpoint_txs {
                    Some(list) => text::texts(list@),
                    None => Seq::empty(),
                };
                match psbt::psbts_of_texts(texts) {
                    Err(fault) => Err(SubmitError::Checkpoint(fault)),
                    Ok(checkpoints) => Ok(
                        Cosigned {
                            txid: match reported {
                                Some(txid) => txid,
                                None => signed_ark.txid(),
                            },
                            signed_ark,
                            checkpoints,
                        },
                    ),
                }
            },
        },
    }
}

/// Reads the answer to a submitted transaction.
pub fn decode_submitted(response: &SubmitTxResponse) -> (tx: Result<CosignedTx, SubmitError>)
    ensures
        match tx {
            Ok(tx) => cosigned_tx(*response) == Ok::<Cosigned, SubmitError>(tx@),
            Err(error) => cosigned_tx(*response) == Err::<Cosigned, SubmitError>(error),
        },
{
    let signed_ark: Psbt = match &response.final_ark_tx {
        None => {
            return Err(SubmitError::MissingArkTx);
        },
        Some(ark) => match psbt::parse_psbt(ark.as_str()) {
            Ok(psbt) => psbt,
            Err(fault) => {
                return Err(SubmitError::ArkTx(fault));
            },
        },
    };
    let reported: Option<Txid> = match &response.ark_txid {
        Some(text) => Txid::from_text(text.as_str()),
        None => None,
    };
    let txid: Txid = match reported {
        Some(txid) => txid,
        None => signed_ark.compute_txid(),
    };
    let checkpoints: Vec<Psbt> = match &response.signed_checkpoint_txs {
        Some(list) => match psbt::parse_psbts(list) {
            Ok(psbts) => psbts,
            Err(fault) => {
                return Err(SubmitError::Checkpoint(fault));
            },
        },
        None => {
            let none: Vec<Psbt> = Vec::new();
            assert(psbt::psbts_view(none@) =~= Seq::<Signed>::empty());
            none
        },
    };
    Ok(CosignedTx { txid, signed_ark, checkpoints })
}

/// The pending transactions of an answer, or what is wrong with the first bad one.
pub open spec fn cosigned_txs(responses: Seq<SubmitTxResponse>) -> Result<
    Seq<Cosigned>,
    SubmitError,
>
    decreases responses.len(),
{
    if responses.len() == 0 {
        Ok(Seq::empty())
    } else {
        match cosigned_txs(responses.drop_last()) {
            Ok(done) => match cosigned_tx(responses.last()) {
                Ok(tx) => Ok(done.push(tx)),
                Err(error) => Err(error),
            },
            Err(error) => Err(error),
        }
    }
}

proof fn lemma_first_bad_pending(responses: Seq<SubmitTxResponse>, n: int, error: SubmitError)
    requires
        0 <= n <= responses.len(),
        cosigned_txs(responses.take(n)) == Err::<Seq<Cosigned>, SubmitError>(error),
    ensures
        cosigned_txs(responses) == Err::<Seq<Cosigned>, SubmitError>(error),
    decreases responses.len() - n,
{
    if n < responses.len() {
        assert(responses.take(n + 1).drop_last() =~= responses.take(n));
        lemma_first_bad_pending(responses, n + 1, error);
    } else {
        assert(responses.take(n) =~= responses);
    }
}

/// Reads the answer on submitted but unfinalized transactions.
pub fn decode_pending(responses: &[SubmitTxResponse]) -> (txs: Result<Vec<CosignedTx>, SubmitError>)
    ensures
        match txs {
            Ok(txs) => cosigned_txs(responses@) == Ok::<Seq<Cosigned>, SubmitError>(
                cosigned_view(txs@),
            ),
            Err(error) => cosigned_txs(responses@) == Err::<Seq<Cosigned>, SubmitError>(error),
        },
{
    let mut txs: Vec<CosignedTx> = Vec::new();
    let mut i: usize = 0;
    proof {
        assert(responses@.take(0) =~= Seq::empty());
        assert(cosigned_view(txs@) =~= Seq::<Cosigned>::empty());
    }
    while i < responses.len()
        invariant
            i <= responses@.len(),
            cosigned_txs(responses@.take(i as int)) == Ok::<Seq<Cosigned>, SubmitError>(
                cosigned_view(txs@),
            ),
        decreases responses@.len() - i,
    {
        proof {
            assert(responses@.take(i + 1).drop_last() =~= responses@.take(i as int));
        }
        match decode_submitted(&responses[i]) {
            Ok(tx) => {
                let ghost was = cosigned_view(txs@);
                let ghost read = tx@;
                txs.push(tx);
                assert(cosigned_view(txs@) =~= was.push(read));
            },
            Err(error) => {
                proof {
                    lemma_first_bad_pending(responses@, i + 1, error);
                }
                return Err(error);
            },
        }
        i += 1;
    }
    assert(responses@.take(responses@.len() as int) =~= responses@);
    Ok(txs)
}

/// Whether the cosigned transaction at a place is the first with an id.
pub open spec fn is_first_copy(txs: Seq<CosignedTx>, txid: Txid, place: int) -> bool {
    &&& 0 <= place < txs.len()
    &&& txs[place].txid == txid
    &&& forall|k: int| 0 <= k < place ==> (#[trigger] txs[k]).txid != txid
}

/// The place of the pending copy of a transaction that the operator holds. Where there is none, the
/// transaction has to be submitted again.
pub fn find_pending_copy(txs: &[CosignedTx], txid: Txid) -> (place: Option<usize>)
    ensures
        match place {
            Some(place) => is_first_copy(txs@, txid, place as int),
            None => forall|k: int| 0 <= k < txs@.len() ==> (#[trigger] txs@[k]).txid != txid,
        },
{
    let mut i: usize = 0;
    while i < txs.len()
        invariant
            i <= txs@.len(),
            forall|k: int| 0 <= k < i ==> (#[trigger] txs@[k]).txid != txid,
        decreases txs@.len() - i,
    {
        if txs[i].txid == txid {
            return Some(i);
        }
        i += 1;
    }
    None
}

} // verus!
